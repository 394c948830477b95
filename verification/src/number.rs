//! Numerals: reading and writing integers in decimal and hexadecimal.

use vstd::prelude::*;

use crate::text;

verus! {

/// The value of a digit in bases up to sixteen, in either letter case.
pub open spec fn digit_value(c: char) -> int {
    let n = c as int;
    if 48 <= n <= 57 {
        n - 48
    } else if 97 <= n <= 102 {
        n - 87
    } else if 65 <= n <= 70 {
        n - 55
    } else {
        99
    }
}

/// A non-empty run of digits of the base.
pub open spec fn is_numeral(s: Seq<char>, base: nat) -> bool {
    s.len() > 0 && forall|i: int| 0 <= i < s.len() ==> #[trigger] digit_value(s[i]) < base
}

/// The number that a numeral stands for.
pub open spec fn value(s: Seq<char>, base: nat) -> nat
    decreases s.len(),
{
    if s.len() == 0 {
        0
    } else {
        value(s.drop_last(), base) * base + digit_value(s.last()) as nat
    }
}

/// The digits of a number as an optional `+` and a numeral give them, up to `max`.
pub open spec fn unsigned(s: Seq<char>, base: nat, max: nat) -> Option<nat> {
    let d = if s.len() > 0 && s[0] == '+' {
        s.skip(1)
    } else {
        s
    };
    if is_numeral(d, base) && value(d, base) <= max {
        Some(value(d, base))
    } else {
        None
    }
}

/// The number that an optional sign and a numeral give, from `-max - 1` up to `max`.
pub open spec fn signed(s: Seq<char>, base: nat, max: nat) -> Option<int> {
    if s.len() > 0 && s[0] == '-' {
        let d = s.skip(1);
        if is_numeral(d, base) && value(d, base) <= max + 1 {
            Some(-(value(d, base) as int))
        } else {
            None
        }
    } else {
        match unsigned(s, base, max) {
            Some(v) => Some(v as int),
            None => None,
        }
    }
}

/// The `u32` that `s` reads as in decimal.
pub open spec fn u32_of(s: Seq<char>) -> Option<u32> {
    match unsigned(s, 10, u32::MAX as nat) {
        Some(v) => Some(v as u32),
        None => None,
    }
}

/// The `u64` that `s` reads as in the base.
pub open spec fn u64_of(s: Seq<char>, base: nat) -> Option<u64> {
    match unsigned(s, base, u64::MAX as nat) {
        Some(v) => Some(v as u64),
        None => None,
    }
}

/// The `usize` that `s` reads as in the base.
pub open spec fn usize_of(s: Seq<char>, base: nat) -> Option<usize> {
    match unsigned(s, base, usize::MAX as nat) {
        Some(v) => Some(v as usize),
        None => None,
    }
}

/// The `i32` that `s` reads as in decimal.
pub open spec fn i32_of(s: Seq<char>) -> Option<i32> {
    match signed(s, 10, i32::MAX as nat) {
        Some(v) => Some(v as i32),
        None => None,
    }
}

/// The `i64` that `s` reads as in the base.
pub open spec fn i64_of(s: Seq<char>, base: nat) -> Option<i64> {
    match signed(s, base, i64::MAX as nat) {
        Some(v) => Some(v as i64),
        None => None,
    }
}

/// The `i128` that `s` reads as in the base.
pub open spec fn i128_of(s: Seq<char>, base: nat) -> Option<i128> {
    match signed(s, base, i128::MAX as nat) {
        Some(v) => Some(v as i128),
        None => None,
    }
}

/// The value of a prefix is no more than that of the whole.
proof fn lemma_value_prefix(s: Seq<char>, base: nat, k: int)
    requires
        0 <= k <= s.len(),
        base >= 1,
    ensures
        value(s.take(k), base) <= value(s, base),
    decreases s.len(),
{
    if k == s.len() {
        assert(s.take(k) =~= s);
    } else {
        assert(s.drop_last().take(k) =~= s.take(k));
        lemma_value_prefix(s.drop_last(), base, k);
        let v = value(s.drop_last(), base);
        assert(v * base >= v) by (nonlinear_arith)
            requires
                base >= 1,
                v >= 0,
        ;
    }
}

/// The value of one digit.
pub fn digit_of(c: char) -> (r: u128)
    ensures
        r == digit_value(c),
{
    let n: u32 = c as u32;
    if 48 <= n && n <= 57 {
        (n - 48) as u128
    } else if 97 <= n && n <= 102 {
        (n - 87) as u128
    } else if 65 <= n && n <= 70 {
        (n - 55) as u128
    } else {
        99
    }
}

/// The value of a numeral, where it is at most `max`.
pub fn magnitude(s: &[char], base: u128, max: u128) -> (r: Option<u128>)
    requires
        2 <= base <= 16,
    ensures
        match r {
            Some(v) => is_numeral(s@, base as nat) && v == value(s@, base as nat) && v <= max,
            None => !is_numeral(s@, base as nat) || value(s@, base as nat) > max,
        },
{
    if s.len() == 0 {
        return None;
    }
    let mut acc: u128 = 0;
    let mut i: usize = 0;
    assert(s@.take(0) =~= Seq::<char>::empty());
    while i < s.len()
        invariant
            2 <= base <= 16,
            i <= s.len(),
            acc == value(s@.take(i as int), base as nat),
            acc <= max,
            forall|j: int| 0 <= j < i ==> #[trigger] digit_value(s@[j]) < base,
        decreases s.len() - i,
    {
        let d: u128 = digit_of(s[i]);
        if d >= base {
            assert(digit_value(s@[i as int]) >= base);
            return None;
        }
        proof {
            assert(s@.take(i + 1).drop_last() =~= s@.take(i as int));
            lemma_value_prefix(s@, base as nat, i + 1);
            assert(value(s@.take(i + 1), base as nat) == acc * base + d);
        }
        match acc.checked_mul(base) {
            None => {
                return None;
            },
            Some(m) => match m.checked_add(d) {
                None => {
                    return None;
                },
                Some(v) => {
                    if v > max {
                        return None;
                    }
                    acc = v;
                },
            },
        }
        i = i + 1;
    }
    assert(s@.take(i as int) =~= s@);
    Some(acc)
}

/// Reads an unsigned number of at most `max`.
pub fn read_unsigned(s: &[char], base: u128, max: u128) -> (r: Option<u128>)
    requires
        2 <= base <= 16,
    ensures
        match r {
            Some(v) => unsigned(s@, base as nat, max as nat) == Some(v as nat) && v <= max,
            None => unsigned(s@, base as nat, max as nat) is None,
        },
{
    if s.len() > 0 && s[0] == '+' {
        magnitude(text::skip(s, 1), base, max)
    } else {
        magnitude(s, base, max)
    }
}

/// Reads a number of 32 bits, as `u32`'s `parse` does.
pub fn parse_u32(s: &[char]) -> (r: Option<u32>)
    ensures
        r == u32_of(s@),
{
    match read_unsigned(s, 10, 0xffff_ffff) {
        Some(v) => Some(v as u32),
        None => None,
    }
}

/// Reads a number of 64 bits in the base, as `u64`'s `from_str_radix` does.
pub fn parse_u64(s: &[char], base: u128) -> (r: Option<u64>)
    requires
        2 <= base <= 16,
    ensures
        r == u64_of(s@, base as nat),
{
    match read_unsigned(s, base, 0xffff_ffff_ffff_ffff) {
        Some(v) => Some(v as u64),
        None => None,
    }
}

/// Reads a size in the base, as `usize`'s `from_str_radix` does.
pub fn parse_usize(s: &[char], base: u128) -> (r: Option<usize>)
    requires
        2 <= base <= 16,
    ensures
        r == usize_of(s@, base as nat),
{
    match read_unsigned(s, base, usize::MAX as u128) {
        Some(v) => Some(v as usize),
        None => None,
    }
}

/// Reads a signed number of 128 bits in the base, as `i128`'s `from_str_radix` does.
pub fn parse_i128(s: &[char], base: u128) -> (r: Option<i128>)
    requires
        2 <= base <= 16,
    ensures
        r == i128_of(s@, base as nat),
{
    if s.len() > 0 && s[0] == '-' {
        match magnitude(text::skip(s, 1), base, 0x8000_0000_0000_0000_0000_0000_0000_0000) {
            Some(v) => if v == 0x8000_0000_0000_0000_0000_0000_0000_0000 {
                Some(i128::MIN)
            } else {
                Some(-(v as i128))
            },
            None => None,
        }
    } else {
        match read_unsigned(s, base, i128::MAX as u128) {
            Some(v) => Some(v as i128),
            None => None,
        }
    }
}

/// Reads a signed number of 32 bits, as `i32`'s `parse` does.
pub fn parse_i32(s: &[char]) -> (r: Option<i32>)
    ensures
        r == i32_of(s@),
{
    if s.len() > 0 && s[0] == '-' {
        match magnitude(text::skip(s, 1), 10, 0x8000_0000) {
            Some(v) => Some((-(v as i64)) as i32),
            None => None,
        }
    } else {
        match read_unsigned(s, 10, 0x7fff_ffff) {
            Some(v) => Some(v as i32),
            None => None,
        }
    }
}

/// Reads a signed number of 64 bits in the base, as `i64`'s `from_str_radix` does.
pub fn parse_i64(s: &[char], base: u128) -> (r: Option<i64>)
    requires
        2 <= base <= 16,
    ensures
        r == i64_of(s@, base as nat),
{
    if s.len() > 0 && s[0] == '-' {
        match magnitude(text::skip(s, 1), base, 0x8000_0000_0000_0000) {
            Some(v) => Some((-(v as i128)) as i64),
            None => None,
        }
    } else {
        match read_unsigned(s, base, 0x7fff_ffff_ffff_ffff) {
            Some(v) => Some(v as i64),
            None => None,
        }
    }
}

/// The digit of a value below sixteen, in lower case.
pub open spec fn digit_char(d: int) -> char {
    if d < 10 {
        (48 + d) as char
    } else {
        (87 + d) as char
    }
}

/// The shortest numeral of `n`: without leading zeros, in lower case.
pub open spec fn numeral(n: nat, base: nat) -> Seq<char>
    decreases n,
{
    if base < 2 {
        Seq::empty()
    } else if n < base {
        seq![digit_char(n as int)]
    } else {
        proof {
            assert(n / base < n) by (nonlinear_arith)
                requires
                    n >= base,
                    base >= 2,
            ;
        }
        numeral(n / base, base).push(digit_char((n % base) as int))
    }
}

/// How a signed number is written.
pub open spec fn written(n: int) -> Seq<char> {
    if n < 0 {
        seq!['-'] + numeral((-n) as nat, 10)
    } else {
        numeral(n as nat, 10)
    }
}

/// The numeral of `n` in `width` digits, padded with zeros; the low digits where it has more.
pub open spec fn padded(n: nat, base: nat, width: nat) -> Seq<char>
    decreases width,
{
    if width == 0 || base == 0 {
        Seq::empty()
    } else {
        padded(n / base, base, (width - 1) as nat).push(digit_char((n % base) as int))
    }
}

/// A written digit reads back as its value.
pub proof fn lemma_digit_char(d: int)
    requires
        0 <= d < 16,
    ensures
        digit_value(digit_char(d)) == d,
{
}

/// A numeral reads back as the number it was written from.
pub proof fn law_numeral_reads_back(n: nat, base: nat)
    requires
        2 <= base <= 16,
    ensures
        is_numeral(numeral(n, base), base),
        value(numeral(n, base), base) == n,
    decreases n,
{
    reveal_with_fuel(value, 2);
    if n < base {
        lemma_digit_char(n as int);
        let s = numeral(n, base);
        assert(s.drop_last() =~= Seq::<char>::empty());
        assert(value(s.drop_last(), base) == 0);
        assert(0 * base == 0) by (nonlinear_arith);
        assert(s.last() == digit_char(n as int));
    } else {
        assert(n / base < n && n % base < base && n == (n / base) * base + n % base)
            by (nonlinear_arith)
            requires
                n >= base,
                base >= 2,
        ;
        let p = numeral(n / base, base);
        let c = digit_char((n % base) as int);
        law_numeral_reads_back(n / base, base);
        lemma_digit_char((n % base) as int);
        assert(p.push(c).drop_last() =~= p);
        assert forall|i: int| 0 <= i < p.push(c).len() implies #[trigger] digit_value(p.push(c)[i])
            < base by {
            if i < p.len() {
                assert(p.push(c)[i] == p[i]);
                assert(digit_value(p[i]) < base);
            }
        }
    }
}

/// A padded numeral that is wide enough reads back as the number it was written from.
pub proof fn law_padded_reads_back(n: nat, base: nat, width: nat)
    requires
        2 <= base <= 16,
    ensures
        padded(n, base, width).len() == width,
        width > 0 ==> is_numeral(padded(n, base, width), base),
        n < vstd::arithmetic::power::pow(base as int, width) ==> value(
            padded(n, base, width),
            base,
        ) == n,
    decreases width,
{
    reveal(vstd::arithmetic::power::pow);
    if width > 0 {
        let w = (width - 1) as nat;
        let p = padded(n / base, base, w);
        let c = digit_char((n % base) as int);
        let top = vstd::arithmetic::power::pow(base as int, w);
        law_padded_reads_back(n / base, base, w);
        lemma_digit_char((n % base) as int);
        assert(n == (n / base) * base + n % base) by (nonlinear_arith)
            requires
                base >= 2,
        ;
        assert(n < base * top ==> n / base < top) by (nonlinear_arith)
            requires
                base >= 2,
        ;
        assert(p.push(c).drop_last() =~= p);
        assert forall|i: int| 0 <= i < p.push(c).len() implies #[trigger] digit_value(p.push(c)[i])
            < base by {
            if i < p.len() {
                assert(p.push(c)[i] == p[i]);
                assert(digit_value(p[i]) < base);
            }
        }
    }
}

/// The character of a digit.
fn char_of(d: u64) -> (r: char)
    requires
        d < 16,
    ensures
        r == digit_char(d as int),
{
    if d < 10 {
        (48 + d as u8) as char
    } else {
        (87 + d as u8) as char
    }
}

/// Writes `n` in the base.
pub fn write_number(n: u64, base: u64) -> (r: Vec<char>)
    requires
        2 <= base <= 16,
    ensures
        r@ == numeral(n as nat, base as nat),
    decreases n,
{
    if n < base {
        let mut out: Vec<char> = Vec::new();
        out.push(char_of(n));
        out
    } else {
        assert(n / base < n) by (nonlinear_arith)
            requires
                n >= base,
                base >= 2,
        ;
        let mut out = write_number(n / base, base);
        out.push(char_of(n % base));
        out
    }
}

/// Writes `n` in `width` digits of the base.
pub fn write_padded(n: u64, base: u64, width: usize) -> (r: Vec<char>)
    requires
        2 <= base <= 16,
    ensures
        r@ == padded(n as nat, base as nat, width as nat),
    decreases width,
{
    if width == 0 {
        Vec::new()
    } else {
        let mut out = write_padded(n / base, base, width - 1);
        assert(n % base < base);
        out.push(char_of(n % base));
        out
    }
}

/// A numeral beyond what the type holds is no number of it, one within it is, and a sign in front is
/// taken where the type has one.
pub proof fn law_only_what_fits_is_read(n: nat, max: nat)
    ensures
        unsigned(numeral(n, 10), 10, max) == if n <= max {
            Some(n)
        } else {
            None
        },
        unsigned(seq!['+'] + numeral(n, 10), 10, max) == unsigned(numeral(n, 10), 10, max),
        unsigned(seq!['-'] + numeral(n, 10), 10, max) is None,
        signed(seq!['-'] + numeral(n, 10), 10, max) == if n <= max + 1 {
            Some(-(n as int))
        } else {
            None
        },
        unsigned(Seq::empty(), 10, max) is None,
{
    let d = numeral(n, 10);
    law_numeral_reads_back(n, 10);
    assert(digit_value(d[0]) < 10);
    assert(d[0] != '+');
    assert((seq!['+'] + d).skip(1) =~= d);
    let m = seq!['-'] + d;
    assert(m.skip(1) =~= d);
    assert(m[0] == '-');
    assert(digit_value(m[0]) == 99);
}

/// A digit is read in either case, and what is no digit ends a number.
pub proof fn law_a_digit_is_read_in_either_case(d: int, c: char)
    requires
        10 <= d < 16,
    ensures
        digit_value((87 + d) as char) == d,
        digit_value((55 + d) as char) == d,
        digit_value(c) < 16 <==> 48 <= c as int <= 57 || 65 <= c as int <= 70 || 97 <= c as int <= 102,
        forall|s: Seq<char>, i: int|
            0 <= i < s.len() && digit_value(#[trigger] s[i]) >= 10 ==> !is_numeral(s, 10),
{
}

} // verus!
