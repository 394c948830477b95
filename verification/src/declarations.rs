//! What declarations read as: the literals, constants, variants, rights and arms of the sources that
//! share an interface, and the rows of the tables that document it.

use vstd::prelude::*;

use crate::abi;
use crate::abi::AbiShape;
use crate::abi::MismatchView;
use crate::deferrals;
use crate::number;
use crate::table;
use crate::tables;
use crate::tables::TableFault;
use crate::text;

verus! {

/// What a literal is made of: letters, digits, underscores and a sign.
pub open spec fn is_literal(s: Seq<char>) -> bool {
    s.len() > 0 && forall|i: int| 0 <= i < s.len() ==> text::is_ident(#[trigger] s[i]) || s[i] == '-'
}

proof fn lemma_trim_around(s: Seq<char>)
    requires
        s.len() > 0,
        !text::is_space(s[0]),
        !text::is_space(s.last()),
    ensures
        text::trim(s) == s,
        text::trim(seq![' '] + s) == s,
        text::trim(s + seq![' ']) == s,
        text::trim(seq![' '] + s + seq![' ']) == s,
{
    text::lemma_trim_plain(s);
    reveal_with_fuel(text::trim_start, 2);
    reveal_with_fuel(text::trim_end, 2);
    let a = seq![' '] + s;
    assert(a.skip(1) =~= s);
    assert(text::trim_start(a) == s);
    let b = s + seq![' '];
    assert(b.drop_last() =~= s);
    assert(b[0] == s[0]);
    assert(text::trim_start(b) == b);
    assert(text::trim_end(b) == s);
    let c = seq![' '] + s + seq![' '];
    assert(c.skip(1) =~= b);
    assert(text::trim_start(c) == b);
}

proof fn lemma_spaces(s: Seq<char>)
    requires
        is_literal(s),
    ensures
        !text::is_space(s[0]),
        !text::is_space(s.last()),
        s.last() != ';',
        s.last() != ',',
        text::lacks(s, '='),
        text::lacks(s, ':'),
{
    assert(text::is_ident(s[0]) || s[0] == '-');
    assert(text::is_ident(s[s.len() - 1]) || s[s.len() - 1] == '-');
    assert forall|i: int| 0 <= i < s.len() implies s[i] != '=' by {
        assert(text::is_ident(s[i]) || s[i] == '-');
    }
    assert forall|i: int| 0 <= i < s.len() implies s[i] != ':' by {
        assert(text::is_ident(s[i]) || s[i] == '-');
    }
}

/// A space in front of a literal and a semicolon or a comma behind it change nothing of what it reads
/// as.
#[verifier::spinoff_prover]
#[verifier::rlimit(60)]
pub proof fn law_punctuation_is_passed_over(s: Seq<char>)
    requires
        is_literal(s),
    ensures
        abi::int_literal(seq![' '] + s) == abi::int_literal(s),
        abi::int_literal(seq![' '] + s + seq![';']) == abi::int_literal(s),
        abi::int_literal(seq![' '] + s + seq![',']) == abi::int_literal(s),
        tables::num_literal(seq![' '] + s) == tables::num_literal(s),
        tables::num_literal(s + seq![';']) == tables::num_literal(s),
        tables::num_literal(s + seq![',']) == tables::num_literal(s),
{
    lemma_spaces(s);
    lemma_trim_around(s);
    reveal_with_fuel(abi::trim_tail, 2);
    assert(abi::trim_tail(s) == s);
    let a = s + seq![';'];
    assert(a.drop_last() =~= s);
    assert(a[0] == s[0]);
    assert(a.last() == ';');
    lemma_trim_around(a);
    assert(seq![' '] + a =~= seq![' '] + s + seq![';']);
    assert(abi::trim_tail(a) == s);
    let b = s + seq![','];
    assert(b.drop_last() =~= s);
    assert(b[0] == s[0]);
    assert(b.last() == ',');
    lemma_trim_around(b);
    assert(seq![' '] + b =~= seq![' '] + s + seq![',']);
    assert(abi::trim_tail(b) == s);
}

proof fn lemma_without(a: Seq<char>, b: Seq<char>)
    ensures
        abi::without_underscores(a + b) == abi::without_underscores(a) + abi::without_underscores(b),
    decreases b.len(),
{
    if b.len() == 0 {
        assert(a + b =~= a);
        assert(abi::without_underscores(a) + b =~= abi::without_underscores(a));
    } else {
        lemma_without(a, b.drop_last());
        assert((a + b).drop_last() =~= a + b.drop_last());
        assert((a + b).last() == b.last());
        assert(abi::without_underscores(a + b) =~= abi::without_underscores(a)
            + abi::without_underscores(b));
    }
}

proof fn lemma_without_none(s: Seq<char>)
    requires
        text::lacks(s, '_'),
    ensures
        abi::without_underscores(s) == s,
    decreases s.len(),
{
    if s.len() > 0 {
        lemma_without_none(s.drop_last());
        assert(s.drop_last().push(s.last()) =~= s);
    }
}

/// An underscore anywhere in a literal changes nothing of what it reads as.
#[verifier::spinoff_prover]
#[verifier::rlimit(60)]
pub proof fn law_underscores_are_passed_over(a: Seq<char>, b: Seq<char>)
    requires
        is_literal(a),
        is_literal(b),
    ensures
        abi::int_literal(a + seq!['_'] + b) == abi::int_literal(a + b),
{
    let s = a + b;
    let t = a + seq!['_'] + b;
    assert forall|i: int| 0 <= i < s.len() implies text::is_ident(#[trigger] s[i]) || s[i] == '-' by {
        if i < a.len() {
            assert(s[i] == a[i]);
        } else {
            assert(s[i] == b[i - a.len()]);
        }
    }
    assert forall|i: int| 0 <= i < t.len() implies text::is_ident(#[trigger] t[i]) || t[i] == '-' by {
        if i < a.len() {
            assert(t[i] == a[i]);
        } else if i > a.len() {
            assert(t[i] == b[i - a.len() - 1]);
        }
    }
    lemma_spaces(s);
    lemma_spaces(t);
    lemma_trim_around(s);
    lemma_trim_around(t);
    assert(abi::trim_tail(s) == s);
    assert(abi::trim_tail(t) == t);
    lemma_without(a, b);
    lemma_without(a, seq!['_'] + b);
    lemma_without(seq!['_'], b);
    assert(t =~= a + (seq!['_'] + b));
    reveal_with_fuel(abi::without_underscores, 2);
    assert(seq!['_'].drop_last() =~= Seq::empty());
    assert(abi::without_underscores(seq!['_']) =~= Seq::empty());
    assert(Seq::<char>::empty() + abi::without_underscores(b) =~= abi::without_underscores(b));
}

proof fn lemma_written(n: int)
    ensures
        is_literal(number::written(n)),
        text::lacks(number::written(n), '_'),
        text::lacks(number::written(n), 'x'),
        text::lacks(number::written(n), 'X'),
        -0x7fff_ffff_ffff_ffff_ffff_ffff_ffff_ffff - 1 <= n <= 0x7fff_ffff_ffff_ffff_ffff_ffff_ffff_ffff
            ==> number::i128_of(number::written(n), 10) == Some(n as i128),
        -0x7fff_ffff_ffff_ffff - 1 <= n <= 0x7fff_ffff_ffff_ffff ==> number::i64_of(
            number::written(n),
            10,
        ) == Some(n as i64),
{
    let m = if n < 0 {
        (-n) as nat
    } else {
        n as nat
    };
    let d = number::numeral(m, 10);
    let s = number::written(n);
    number::law_numeral_reads_back(m, 10);
    assert(number::digit_value(d[0]) < 10);
    if n < 0 {
        assert(s.skip(1) =~= d);
    }
    assert forall|i: int| 0 <= i < s.len() implies text::is_ident(#[trigger] s[i]) || s[i] == '-' by {
        if n >= 0 {
            assert(number::digit_value(d[i]) < 10);
        } else if i > 0 {
            assert(number::digit_value(d[i - 1]) < 10);
            assert(s[i] == d[i - 1]);
        }
    }
    assert forall|i: int| 0 <= i < s.len() implies s[i] != '_' && s[i] != 'x' && #[trigger] s[i] != 'X' by {
        if n >= 0 {
            assert(number::digit_value(d[i]) < 10);
        } else if i > 0 {
            assert(number::digit_value(d[i - 1]) < 10);
            assert(s[i] == d[i - 1]);
        }
    }
}

proof fn lemma_hex(n: nat)
    ensures
        text::lacks(number::numeral(n, 16), '_'),
        n <= 0x7fff_ffff_ffff_ffff_ffff_ffff_ffff_ffff ==> number::i128_of(number::numeral(n, 16), 16)
            == Some(n as i128),
        n <= 0x7fff_ffff_ffff_ffff ==> number::i64_of(number::numeral(n, 16), 16) == Some(n as i64),
        forall|i: int|
            0 <= i < number::numeral(n, 16).len() ==> text::is_ident(#[trigger] number::numeral(n, 16)[i]),
        number::numeral(n, 16).len() > 0,
{
    let d = number::numeral(n, 16);
    number::law_numeral_reads_back(n, 16);
    assert(number::digit_value(d[0]) < 16);
    assert forall|i: int| 0 <= i < d.len() implies d[i] != '_' by {
        assert(number::digit_value(d[i]) < 16);
    }
    assert forall|i: int| 0 <= i < d.len() implies text::is_ident(#[trigger] d[i]) by {
        assert(number::digit_value(d[i]) < 16);
    }
}

/// A number that is written out in decimal, with its sign, or in hexadecimal behind its prefix, reads
/// back as itself.
#[verifier::spinoff_prover]
#[verifier::rlimit(40)]
pub proof fn law_a_literal_is_read(n: i128)
    ensures
        is_literal(number::written(n as int)),
        abi::int_literal(number::written(n as int)) == Some(n),
        n >= 0 ==> abi::int_literal("0x"@ + number::numeral(n as nat, 16)) == Some(n),
        n >= 0 ==> abi::int_literal("0X"@ + number::numeral(n as nat, 16)) == Some(n),
        i64::MIN <= n <= i64::MAX ==> tables::num_literal(number::written(n as int)) == Some(n as i64),
        0 <= n <= i64::MAX ==> tables::num_literal("0x"@ + number::numeral(n as nat, 16)) == Some(
            n as i64,
        ),
{
    assert("0x"@.len() == 2 && "0x"@[0] == '0' && "0x"@[1] == 'x') by {
        reveal_strlit("0x");
    }
    assert("0X"@.len() == 2 && "0X"@[0] == '0' && "0X"@[1] == 'X') by {
        reveal_strlit("0X");
    }
    let s = number::written(n as int);
    lemma_written(n as int);
    lemma_spaces(s);
    lemma_trim_around(s);
    lemma_without_none(s);
    assert(abi::trim_tail(s) == s);
    assert(!text::starts_with(s, "0x"@)) by {
        if text::starts_with(s, "0x"@) {
            assert(s.take(2)[1] == s[1]);
        }
    }
    assert(!text::starts_with(s, "0X"@)) by {
        if text::starts_with(s, "0X"@) {
            assert(s.take(2)[1] == s[1]);
        }
    }
    if n >= 0 {
        let d = number::numeral(n as nat, 16);
        lemma_hex(n as nat);
        lemma_prefixed("0x"@, d);
        lemma_prefixed("0X"@, d);
        assert(!text::starts_with("0X"@ + d, "0x"@)) by {
            if text::starts_with("0X"@ + d, "0x"@) {
                assert(("0X"@ + d).take(2)[1] == ("0X"@ + d)[1]);
            }
        }
    }
}

#[verifier::spinoff_prover]
#[verifier::rlimit(60)]
proof fn lemma_prefixed(p: Seq<char>, d: Seq<char>)
    requires
        p.len() == 2,
        p[0] == '0',
        p[1] == 'x' || p[1] == 'X',
        d.len() > 0,
        text::lacks(d, '_'),
        forall|i: int| 0 <= i < d.len() ==> text::is_ident(#[trigger] d[i]),
    ensures
        text::trim(abi::trim_tail(text::trim(p + d))) == p + d,
        abi::without_underscores(p + d) == p + d,
        abi::without_underscores(d) == d,
        text::strip_prefix(p + d, p) == Some(d),
{
    let s = p + d;
    assert(text::is_ident(d[d.len() - 1]));
    assert(s.last() == d[d.len() - 1]);
    lemma_trim_around(s);
    assert(abi::trim_tail(s) == s);
    assert forall|i: int| 0 <= i < s.len() implies s[i] != '_' by {
        if i >= 2 {
            assert(s[i] == d[i - 2]);
        }
    }
    lemma_without_none(s);
    lemma_without_none(d);
    text::lemma_stands(Seq::empty(), p, d);
    assert(s.skip(2) =~= d);
}

/// What a name or a type is made of: letters, digits and underscores.
pub open spec fn is_identifier(s: Seq<char>) -> bool {
    s.len() > 0 && forall|i: int| 0 <= i < s.len() ==> text::is_ident(#[trigger] s[i])
}

/// How a constant is declared.
pub open spec fn constant(name: Seq<char>, ty: Seq<char>, literal: Seq<char>) -> Seq<char> {
    "pub const "@ + (name + ":"@ + (seq![' '] + ty + seq![' '] + "="@ + (seq![' '] + literal + seq![';'])))
}

#[verifier::spinoff_prover]
#[verifier::rlimit(40)]
proof fn lemma_constant(name: Seq<char>, ty: Seq<char>, literal: Seq<char>)
    requires
        is_identifier(name),
        is_identifier(ty),
        is_literal(literal),
    ensures
        text::trim(constant(name, ty, literal)) == constant(name, ty, literal),
        !text::starts_with(constant(name, ty, literal), "//"@),
        abi::declaration(constant(name, ty, literal)) == Some(
            (name, ty, seq![' '] + literal + seq![';']),
        ),
{
    assert("pub const "@.len() == 10 && "pub const "@[0] == 'p') by {
        reveal_strlit("pub const ");
    }
    assert("//"@.len() == 2 && "//"@[0] == '/') by {
        reveal_strlit("//");
    }
    assert(":"@.len() == 1 && ":"@[0] == ':') by {
        reveal_strlit(":");
    }
    assert("="@.len() == 1 && "="@[0] == '=') by {
        reveal_strlit("=");
    }
    let line = constant(name, ty, literal);
    let val = seq![' '] + literal + seq![';'];
    let typed = seq![' '] + ty + seq![' '];
    let tail = typed + "="@ + val;
    let rest = name + ":"@ + tail;
    assert(line =~= "pub const "@ + rest);
    assert(line[0] == 'p');
    assert(line.last() == ';');
    text::lemma_trim_plain(line);
    if text::starts_with(line, "//"@) {
        assert(line.take(2)[0] == line[0]);
    }
    text::lemma_stands(Seq::empty(), "pub const "@, rest);
    assert(line.skip(10) =~= rest);
    lemma_spaces(name);
    lemma_spaces(ty);
    text::lemma_cut(name, ":"@, tail);
    assert forall|i: int| 0 <= i < typed.len() implies typed[i] != '=' by {
        if 0 < i < typed.len() - 1 {
            assert(typed[i] == ty[i - 1]);
        }
    }
    text::lemma_cut(typed, "="@, val);
    lemma_trim_around(name);
    lemma_trim_around(ty);
}

/// A declared constant is read in the shape of its type, under its name and with its literal's value,
/// and in no shape of another type; one in a comment is not read.
#[verifier::spinoff_prover]
#[verifier::rlimit(60)]
pub proof fn law_a_constant_is_read(name: Seq<char>, ty: Seq<char>, literal: Seq<char>)
    requires
        is_identifier(name),
        is_identifier(ty),
        is_literal(literal),
    ensures
        ({
            let line = constant(name, ty, literal);
            let read = match abi::int_literal(literal) {
                Some(v) => Some((name, v)),
                None => None,
            };
            &&& abi::const_of(line, AbiShape::U64Const) == if ty == "u64"@ {
                read
            } else {
                None
            }
            &&& abi::const_of(line, AbiShape::U16Const) == if ty == "u16"@ || ty == "i32"@ {
                read
            } else {
                None
            }
            &&& abi::const_of("//"@ + line, AbiShape::U64Const) is None
            &&& abi::const_of("//"@ + line, AbiShape::U16Const) is None
            &&& abi::named_value(line, name) == Some(seq![' '] + literal + seq![';'])
        }),
{
    lemma_constant(name, ty, literal);
    law_punctuation_is_passed_over(literal);
    assert("//"@.len() == 2 && "//"@[0] == '/') by {
        reveal_strlit("//");
    }
    let line = constant(name, ty, literal);
    let comment = "//"@ + line;
    assert(comment.last() == line.last());
    text::lemma_trim_plain(comment);
    text::lemma_stands(Seq::empty(), "//"@, line);
}

/// The first line that declares a constant gives its value, whatever stands before it.
#[verifier::spinoff_prover]
#[verifier::rlimit(60)]
pub proof fn law_a_named_constant_is_found(before: Seq<Seq<char>>, line: Seq<char>, after: Seq<Seq<char>>, want: Seq<char>)
    requires
        forall|i: int| 0 <= i < before.len() ==> abi::named_value(#[trigger] before[i], want) is None,
        abi::named_value(line, want) is Some,
    ensures
        abi::named(before + seq![line] + after, want) == abi::int_literal(
            abi::named_value(line, want)->0,
        ),
    decreases before.len(),
{
    let ls = before + seq![line] + after;
    if before.len() == 0 {
        assert(ls[0] == line);
    } else {
        assert(ls[0] == before[0]);
        assert(ls.skip(1) =~= before.skip(1) + seq![line] + after);
        assert forall|i: int| 0 <= i < before.skip(1).len() implies abi::named_value(
            #[trigger] before.skip(1)[i],
            want,
        ) is None by {
            assert(before.skip(1)[i] == before[i + 1]);
        }
        law_a_named_constant_is_found(before.skip(1), line, after, want);
    }
}

/// A variant with its discriminant and a comma is read under its name; without the comma, or under a
/// name that begins with no capital, it is not.
#[verifier::spinoff_prover]
#[verifier::rlimit(60)]
pub proof fn law_a_variant_is_read(name: Seq<char>, literal: Seq<char>)
    requires
        is_identifier(name),
        is_literal(literal),
    ensures
        ({
            let line = name + seq![' '] + "="@ + (seq![' '] + literal);
            let read = match abi::int_literal(literal) {
                Some(v) => Some((name, v)),
                None => None,
            };
            &&& abi::const_of(line + seq![','], AbiShape::EnumVariant) == if 65 <= name[0] as int <= 90 {
                read
            } else {
                None
            }
            &&& abi::const_of(line, AbiShape::EnumVariant) is None
        }),
{
    assert("="@.len() == 1 && "="@[0] == '=') by {
        reveal_strlit("=");
    }
    assert("//"@.len() == 2 && "//"@[0] == '/') by {
        reveal_strlit("//");
    }
    let line = name + seq![' '] + "="@ + (seq![' '] + literal);
    let full = line + seq![','];
    lemma_spaces(name);
    lemma_spaces(literal);
    assert(text::is_ident(name[0]));
    assert(full[0] == name[0] && line[0] == name[0]);
    assert(line.last() == literal.last());
    text::lemma_trim_plain(full);
    text::lemma_trim_plain(line);
    if text::starts_with(full, "//"@) {
        assert(full.take(2)[0] == full[0]);
    }
    if text::starts_with(line, "//"@) {
        assert(line.take(2)[0] == line[0]);
    }
    assert(full.drop_last() =~= line);
    let padded = name + seq![' '];
    assert forall|i: int| 0 <= i < padded.len() implies padded[i] != '=' by {
        if i < name.len() {
            assert(padded[i] == name[i]);
        }
    }
    text::lemma_cut(padded, "="@, seq![' '] + literal);
    lemma_trim_around(name);
    law_punctuation_is_passed_over(literal);
}

/// A right is read as its bit: the next right's is twice as much, and the first one's is one.
#[verifier::spinoff_prover]
#[verifier::rlimit(60)]
pub proof fn law_a_right_is_a_bit(name: Seq<char>, k: u32)
    requires
        is_identifier(name),
    ensures
        ({
            let line = "pub const "@ + (name + ":"@ + (" Rights = Rights("@ + "1 <<"@ + (seq![' ']
                + number::numeral(k as nat, 10) + ");"@)));
            let next = "pub const "@ + (name + ":"@ + (" Rights = Rights("@ + "1 <<"@ + (seq![' ']
                + number::numeral(k as nat + 1, 10) + ");"@)));
            &&& k >= 128 ==> abi::const_of(line, AbiShape::RightsBit) is None
            &&& k == 0 ==> abi::const_of(line, AbiShape::RightsBit) == Some((name, 1i128))
            &&& k < 126 ==> {
                &&& abi::const_of(line, AbiShape::RightsBit) matches Some((n, v))
                &&& abi::const_of(next, AbiShape::RightsBit) matches Some((m, w))
                &&& n == name && m == name && w == 2 * v
            }
        }),
{
    lemma_right(name, k as nat);
    if k < 126 {
        lemma_right(name, k as nat + 1);
        let j: u32 = (k + 1) as u32;
        assert((1i128 << j) == 2 * (1i128 << k)) by (bit_vector)
            requires
                k < 126,
                j == k + 1,
        ;
    }
    assert((1i128 << 0u32) == 1) by (bit_vector);
}

proof fn lemma_rights_open()
    ensures
        text::lacks(" Rights = Rights("@, '1'),
        text::contains(" Rights = Rights("@, "Rights("@),
{
    reveal_strlit(" Rights = Rights(");
    reveal_strlit("Rights(");
    let s = " Rights = Rights("@;
    assert(s.subrange(10, 17) =~= "Rights("@);
    assert(text::occurs_at(s, "Rights("@, 10));
    text::lemma_find(s, "Rights("@);
}

#[verifier::spinoff_prover]
#[verifier::rlimit(40)]
proof fn lemma_right(name: Seq<char>, k: nat)
    requires
        is_identifier(name),
        k <= u32::MAX,
    ensures
        ({
            let line = "pub const "@ + (name + ":"@ + (" Rights = Rights("@ + "1 <<"@ + (seq![' ']
                + number::numeral(k, 10) + ");"@)));
            abi::const_of(line, AbiShape::RightsBit) == if k < 128 {
                Some((name, 1i128 << (k as u32)))
            } else {
                None
            }
        }),
{
    assert("pub const "@.len() == 10 && "pub const "@[0] == 'p') by {
        reveal_strlit("pub const ");
    }
    assert("//"@.len() == 2 && "//"@[0] == '/') by {
        reveal_strlit("//");
    }
    assert(":"@.len() == 1 && ":"@[0] == ':') by {
        reveal_strlit(":");
    }
    lemma_rights_open();
    assert("1 <<"@.len() == 4 && "1 <<"@[0] == '1') by {
        reveal_strlit("1 <<");
    }
    assert(");"@.len() == 2 && ");"@[0] == ')' && ");"@[1] == ';') by {
        reveal_strlit(");");
    }
    let d = number::numeral(k, 10);
    number::law_numeral_reads_back(k, 10);
    assert(number::digit_value(d[0]) < 10);
    assert forall|i: int| 0 <= i < d.len() implies text::is_digit(#[trigger] d[i]) by {
        assert(number::digit_value(d[i]) < 10);
    }
    let head = " Rights = Rights("@;
    let shifted = seq![' '] + d + ");"@;
    let tail = head + "1 <<"@ + shifted;
    let rest = name + ":"@ + tail;
    let line = "pub const "@ + rest;
    assert(line[0] == 'p');
    assert(line.last() == ';');
    text::lemma_trim_plain(line);
    if text::starts_with(line, "//"@) {
        assert(line.take(2)[0] == line[0]);
    }
    text::lemma_stands(Seq::empty(), "pub const "@, rest);
    assert(line.skip(10) =~= rest);
    lemma_spaces(name);
    lemma_trim_around(name);
    text::lemma_cut(name, ":"@, tail);
    text::lemma_find(head, "Rights("@);
    assert(text::contains(tail, "Rights("@)) by {
        let i = text::find(head, "Rights("@)->0;
        assert(tail.subrange(i, i + "Rights("@.len()) =~= head.subrange(i, i + "Rights("@.len()));
        assert(text::occurs_at(tail, "Rights("@, i));
        text::lemma_find(tail, "Rights("@);
    }
    text::lemma_cut(head, "1 <<"@, shifted);
    reveal_with_fuel(text::trim_start, 2);
    assert(shifted.skip(1) =~= d + ");"@);
    assert((d + ");"@)[0] == d[0]);
    assert(text::trim_start(shifted) == d + ");"@);
    text::lemma_leading_digits(d, ");"@);
}

/// An arm is read as its left side and its variant, with or without a comma; one in a comment is not.
#[verifier::spinoff_prover]
#[verifier::rlimit(40)]
pub proof fn law_an_arm_is_read(left: Seq<char>, name: Seq<char>)
    requires
        is_literal(left),
        is_identifier(name),
    ensures
        abi::arm(left + seq![' '] + "=>"@ + (seq![' '] + ("KError::"@ + name))) == Some((left, name)),
        abi::arm(left + seq![' '] + "=>"@ + (seq![' '] + ("KError::"@ + name + seq![',']))) == Some(
            (left, name),
        ),
        abi::arm("//"@ + (left + seq![' '] + "=>"@ + (seq![' '] + ("KError::"@ + name)))) is None,
{
    assert("=>"@.len() == 2 && "=>"@[0] == '=') by {
        reveal_strlit("=>");
    }
    assert("//"@.len() == 2 && "//"@[0] == '/') by {
        reveal_strlit("//");
    }
    assert("KError::"@.len() == 8 && "KError::"@[0] == 'K') by {
        reveal_strlit("KError::");
    }
    lemma_spaces(left);
    assert(text::is_ident(left[0]) || left[0] == '-');
    assert(text::is_ident(name[name.len() - 1]));
    let padded = left + seq![' '];
    assert forall|i: int| 0 <= i < padded.len() implies padded[i] != '=' by {
        if i < left.len() {
            assert(padded[i] == left[i]);
        }
    }
    lemma_trim_around(left);
    let bare = "KError::"@ + name;
    let comma = bare + seq![','];
    text::lemma_stands(Seq::empty(), "KError::"@, name);
    assert(bare.skip(8) =~= name);
    assert(bare.last() == name[name.len() - 1]);
    lemma_trim_around(bare);
    assert(comma[0] == 'K' && comma.last() == ',');
    lemma_trim_around(comma);
    reveal_with_fuel(text::trim_end_char, 2);
    assert(comma.drop_last() =~= bare);
    assert(text::trim_end_char(comma, ',') == bare);
    assert(text::trim_end_char(bare, ',') == bare);
    text::lemma_cut(padded, "=>"@, seq![' '] + bare);
    text::lemma_cut(padded, "=>"@, seq![' '] + comma);
    let a = padded + "=>"@ + (seq![' '] + bare);
    let b = padded + "=>"@ + (seq![' '] + comma);
    assert(a[0] == left[0] && b[0] == left[0]);
    assert(a.last() == bare.last() && b.last() == ',');
    text::lemma_trim_plain(a);
    text::lemma_trim_plain(b);
    if text::starts_with(a, "//"@) {
        assert(a.take(2)[0] == a[0]);
    }
    if text::starts_with(b, "//"@) {
        assert(b.take(2)[0] == b[0]);
    }
    let c = "//"@ + a;
    assert(c.last() == a.last());
    text::lemma_trim_plain(c);
    text::lemma_stands(Seq::empty(), "//"@, a);
}

proof fn lemma_pushed<A>(s: Seq<A>, x: A, y: A)
    ensures
        s.push(x).contains(y) <==> s.contains(y) || x == y,
{
    assert(s.push(x)[s.len() as int] == x);
    if s.contains(y) {
        let k = s.index_of(y);
        assert(s.push(x)[k] == y);
    }
    if s.push(x).contains(y) && x != y {
        let k = s.push(x).index_of(y);
        assert(s[k] == y);
    }
}

/// A name has the value of the last line that declares it, and a name that no line declares has none.
#[verifier::spinoff_prover]
#[verifier::rlimit(60)]
pub proof fn law_every_declaration_is_kept(ls: Seq<Seq<char>>, shape: AbiShape, name: Seq<char>)
    ensures
        if abi::consts(ls, shape).contains_key(name) {
            exists|i: int|
                0 <= i < ls.len() && #[trigger] abi::const_of(ls[i], shape) == Some(
                    (name, abi::consts(ls, shape)[name]),
                ) && forall|j: int|
                    i < j < ls.len() ==> !(#[trigger] abi::const_of(ls[j], shape) matches Some(c) && c.0
                        == name)
        } else {
            forall|j: int|
                0 <= j < ls.len() ==> !(#[trigger] abi::const_of(ls[j], shape) matches Some(c) && c.0
                    == name)
        },
    decreases ls.len(),
{
    if ls.len() > 0 {
        let front = ls.drop_last();
        let last = ls.len() - 1;
        law_every_declaration_is_kept(front, shape, name);
        assert(ls.last() == ls[last]);
        assert forall|j: int| 0 <= j < last implies front[j] == #[trigger] ls[j] by {}
        match abi::const_of(ls[last], shape) {
            Some(c) if c.0 == name => {
                assert(abi::consts(ls, shape)[name] == c.1);
                assert(abi::const_of(ls[last], shape) == Some((name, c.1)));
            },
            _ => {
                if abi::consts(front, shape).contains_key(name) {
                    let i = choose|i: int|
                        0 <= i < front.len() && #[trigger] abi::const_of(front[i], shape) == Some(
                            (name, abi::consts(front, shape)[name]),
                        ) && forall|j: int|
                            i < j < front.len() ==> !(#[trigger] abi::const_of(front[j], shape) matches Some(
                                c,
                            ) && c.0 == name);
                    assert(abi::const_of(ls[i], shape) == Some((name, abi::consts(ls, shape)[name])));
                    assert forall|j: int| i < j < ls.len() implies !(#[trigger] abi::const_of(
                        ls[j],
                        shape,
                    ) matches Some(c) && c.0 == name) by {
                        if j < last {
                            assert(ls[j] == front[j]);
                        }
                    }
                } else {
                    assert forall|j: int| 0 <= j < ls.len() implies !(#[trigger] abi::const_of(
                        ls[j],
                        shape,
                    ) matches Some(c) && c.0 == name) by {
                        if j < last {
                            assert(ls[j] == front[j]);
                        }
                    }
                }
            },
        }
    }
}

/// Of the kernel's names, one is reported as different exactly where userspace has another value for
/// it, with both values, and as missing exactly where userspace lacks it and is not meant to.
#[verifier::spinoff_prover]
#[verifier::rlimit(60)]
pub proof fn law_a_disagreement_is_reported(
    names: Seq<Seq<char>>,
    kernel: Map<Seq<char>, i128>,
    user: Map<Seq<char>, i128>,
    one_sided: Seq<Seq<char>>,
    x: Seq<char>,
    a: i128,
    b: i128,
)
    ensures
        ({
            let found = abi::disagreements(names, kernel, user, one_sided);
            &&& found.contains(MismatchView::Differs { name: x, kernel: a, user: b }) <==> names.contains(x)
                && user.contains_key(x) && kernel[x] == a && user[x] == b && a != b
            &&& found.contains(MismatchView::Missing { name: x }) <==> names.contains(x)
                && !user.contains_key(x) && !one_sided.contains(x)
        }),
    decreases names.len(),
{
    if names.len() > 0 {
        let init = names.drop_last();
        let front = abi::disagreements(init, kernel, user, one_sided);
        law_a_disagreement_is_reported(init, kernel, user, one_sided, x, a, b);
        lemma_pushed(init, names.last(), x);
        assert(init.push(names.last()) =~= names);
        match abi::disagreement(names.last(), kernel[names.last()], user, one_sided) {
            Some(m) => {
                lemma_pushed(front, m, MismatchView::Differs { name: x, kernel: a, user: b });
                lemma_pushed(front, m, MismatchView::Missing { name: x });
            },
            None => {},
        }
    }
}

/// Of userspace's names, one is reported as unknown exactly where the kernel lacks it and is not meant
/// to.
#[verifier::spinoff_prover]
#[verifier::rlimit(60)]
pub proof fn law_an_unknown_name_is_reported(
    names: Seq<Seq<char>>,
    kernel: Map<Seq<char>, i128>,
    one_sided: Seq<Seq<char>>,
    x: Seq<char>,
)
    ensures
        abi::unknowns(names, kernel, one_sided).contains(MismatchView::Unknown { name: x })
            <==> names.contains(x) && !kernel.contains_key(x) && !one_sided.contains(x),
    decreases names.len(),
{
    if names.len() > 0 {
        let init = names.drop_last();
        let front = abi::unknowns(init, kernel, one_sided);
        law_an_unknown_name_is_reported(init, kernel, one_sided, x);
        lemma_pushed(init, names.last(), x);
        assert(init.push(names.last()) =~= names);
        lemma_pushed(
            front,
            MismatchView::Unknown { name: names.last() },
            MismatchView::Unknown { name: x },
        );
    }
}

/// One more name is one more agreement exactly where both sides have it with one value.
#[verifier::spinoff_prover]
#[verifier::rlimit(60)]
pub proof fn law_agreements_are_counted(
    names: Seq<Seq<char>>,
    x: Seq<char>,
    kernel: Map<Seq<char>, i128>,
    user: Map<Seq<char>, i128>,
)
    ensures
        abi::agreements(Seq::empty(), kernel, user) == 0,
        user.contains_key(x) && user[x] == kernel[x] ==> abi::agreements(names.push(x), kernel, user)
            == abi::agreements(names, kernel, user) + 1,
        !(user.contains_key(x) && user[x] == kernel[x]) ==> abi::agreements(
            names.push(x),
            kernel,
            user,
        ) == abi::agreements(names, kernel, user),
{
    assert(names.push(x).drop_last() =~= names);
}

/// A code decodes to the variant of its own arm: the last line that has an arm for it decides, and the
/// arm of everything else decodes no code.
#[verifier::spinoff_prover]
#[verifier::rlimit(60)]
pub proof fn law_a_code_has_its_own_arm(ls: Seq<Seq<char>>, line: Seq<char>, code: i128, name: Seq<char>, other: i128)
    requires
        abi::arm(line) == Some((number::written(code as int), name)),
    ensures
        abi::arms(ls.push(line)).contains_key(code),
        abi::arms(ls.push(line))[code] == name,
        other != code ==> (abi::arms(ls.push(line)).contains_key(other) <==> abi::arms(ls).contains_key(
            other,
        )),
        other != code && abi::arms(ls).contains_key(other) ==> abi::arms(ls.push(line))[other]
            == abi::arms(ls)[other],
        abi::catch_all(ls.push(line)) == abi::catch_all(ls),
{
    let s = number::written(code as int);
    lemma_written(code as int);
    assert("_"@.len() == 1 && "_"@[0] == '_') by {
        reveal_strlit("_");
    }
    assert(s != "_"@) by {
        assert(s[0] != '_');
    }
    assert(ls.push(line).drop_last() =~= ls);
}

/// The arm of everything else is the last one, and adds no code.
#[verifier::spinoff_prover]
#[verifier::rlimit(60)]
pub proof fn law_the_last_catch_all_counts(ls: Seq<Seq<char>>, line: Seq<char>, name: Seq<char>)
    ensures
        abi::arm(line) == Some(("_"@, name)) ==> abi::catch_all(ls.push(line)) == Some(name)
            && abi::arms(ls.push(line)) == abi::arms(ls),
        abi::arm(line) is None ==> abi::catch_all(ls.push(line)) == abi::catch_all(ls) && abi::arms(
            ls.push(line),
        ) == abi::arms(ls),
{
    assert(ls.push(line).drop_last() =~= ls);
}

/// A declared system call is read as its number and its name in small letters.
#[verifier::spinoff_prover]
#[verifier::rlimit(60)]
pub proof fn law_a_system_call_is_read(name: Seq<char>, literal: Seq<char>)
    requires
        is_identifier(name),
        is_literal(literal),
    ensures
        ({
            let line = "pub const SYS_"@ + (name + ": u64 = "@ + (literal + seq![';']));
            &&& tables::declares_call(line)
            &&& tables::call_row(line) == match tables::num_literal(literal) {
                Some(n) => Some((n, "sys_"@ + deferrals::small_text(name))),
                None => None,
            }
        }),
{
    assert("pub const SYS_"@.len() == 14 && "pub const SYS_"@[0] == 'p') by {
        reveal_strlit("pub const SYS_");
    }
    assert(": u64 = "@.len() == 8 && ": u64 = "@[0] == ':') by {
        reveal_strlit(": u64 = ");
    }
    let rest = name + ": u64 = "@ + (literal + seq![';']);
    let line = "pub const SYS_"@ + rest;
    assert(line[0] == 'p' && line.last() == ';');
    text::lemma_trim_plain(line);
    text::lemma_stands(Seq::empty(), "pub const SYS_"@, rest);
    assert(line.skip(14) =~= rest);
    lemma_spaces(name);
    text::lemma_cut(name, ": u64 = "@, literal + seq![';']);
    law_punctuation_is_passed_over(literal);
}

/// An error's variant is read as its code and its name, with or without a comma.
#[verifier::spinoff_prover]
#[verifier::rlimit(60)]
pub proof fn law_an_error_is_read(name: Seq<char>, code: i64)
    requires
        is_identifier(name),
    ensures
        tables::error_row(name + " = "@ + number::written(code as int)) == Some((code, name)),
        tables::error_row(name + " = "@ + (number::written(code as int) + seq![','])) == Some(
            (code, name),
        ),
{
    assert(" = "@.len() == 3 && " = "@[0] == ' ') by {
        reveal_strlit(" = ");
    }
    let d = number::written(code as int);
    let e = d + seq![','];
    lemma_written(code as int);
    lemma_spaces(d);
    lemma_trim_around(d);
    lemma_spaces(name);
    assert forall|i: int| 0 <= i < name.len() implies name[i] != ' ' by {
        assert(text::is_ident(name[i]));
    }
    text::lemma_cut(name, " = "@, d);
    text::lemma_cut(name, " = "@, e);
    let a = name + " = "@ + d;
    let b = name + " = "@ + e;
    assert(a[0] == name[0] && b[0] == name[0]);
    assert(a.last() == d.last() && b.last() == ',');
    text::lemma_trim_plain(a);
    text::lemma_trim_plain(b);
    reveal_with_fuel(text::trim_end_char, 2);
    assert(e.drop_last() =~= d);
    assert(text::trim_end_char(e, ',') == d);
    assert(text::trim_end_char(d, ',') == d);
}

/// A table's row is read as the number of its first cell and the name of its second, whatever cells
/// follow, with or without backticks around the name.
#[verifier::spinoff_prover]
#[verifier::rlimit(40)]
pub proof fn law_a_row_is_read(n: i64, name: Seq<char>, more: Seq<char>)
    requires
        is_identifier(name),
    ensures
        tables::table_row(
            "|"@ + (seq![' '] + number::written(n as int) + seq![' '] + "|"@ + (seq![' '] + name
                + seq![' '] + "|"@ + more)),
        ) == Some((n, name)),
        tables::table_row(
            "|"@ + (seq![' '] + number::written(n as int) + seq![' '] + "|"@ + (seq![' '] + (seq!['`']
                + name + seq!['`']) + seq![' '] + "|"@ + more)),
        ) == Some((n, name)),
{
    let d = number::written(n as int);
    lemma_written(n as int);
    lemma_spaces(d);
    lemma_spaces(name);
    assert forall|i: int| 0 <= i < d.len() implies d[i] != '`' && #[trigger] d[i] != '|' by {
        assert(text::is_ident(d[i]) || d[i] == '-');
    }
    assert forall|i: int| 0 <= i < name.len() implies name[i] != '`' && #[trigger] name[i] != '|' by {
        assert(text::is_ident(name[i]));
    }
    assert(d[0] != '`' && d[d.len() - 1] != '`');
    assert(name[0] != '`' && name[name.len() - 1] != '`');
    let quoted = seq!['`'] + name + seq!['`'];
    lemma_trim_around(d);
    lemma_trim_around(name);
    lemma_trim_around(quoted);
    reveal_with_fuel(text::trim_end_char, 2);
    reveal_with_fuel(text::trim_start_char, 2);
    assert(quoted.skip(1) =~= name + seq!['`']);
    assert((name + seq!['`'])[0] == name[0]);
    assert(text::trim_start_char(quoted, '`') == name + seq!['`']);
    assert((name + seq!['`']).drop_last() =~= name);
    assert(text::trim_end_char(name + seq!['`'], '`') == name);
    assert(tables::unquoted(seq![' '] + quoted + seq![' ']) == name);
    assert(tables::unquoted(seq![' '] + name + seq![' ']) == name);
    assert(tables::unquoted(seq![' '] + d + seq![' ']) == d);
    lemma_row(seq![' '] + d + seq![' '], seq![' '] + name + seq![' '], more);
    lemma_row(seq![' '] + d + seq![' '], seq![' '] + quoted + seq![' '], more);
}

proof fn lemma_row(a: Seq<char>, b: Seq<char>, more: Seq<char>)
    requires
        text::lacks(a, '|'),
        text::lacks(b, '|'),
    ensures
        ({
            let t = "|"@ + (a + "|"@ + (b + "|"@ + more));
            let cells = text::split(t, "|"@);
            text::starts_with(t, "|"@) && cells.len() >= 3 && cells[1] == a && cells[2] == b
        }),
{
    assert("|"@.len() == 1 && "|"@[0] == '|') by {
        reveal_strlit("|");
    }
    let second = b + "|"@ + more;
    let first = a + "|"@ + second;
    let t = "|"@ + first;
    text::lemma_cut(b, "|"@, more);
    text::lemma_cut(a, "|"@, second);
    text::lemma_cut(Seq::empty(), "|"@, first);
    assert(Seq::<char>::empty() + "|"@ + first =~= t);
    text::lemma_stands(Seq::empty(), "|"@, first);
}

/// A row of the source is reported as undocumented exactly where the document has no row of its number,
/// and as renamed exactly where the first there is has another name.
#[verifier::spinoff_prover]
#[verifier::rlimit(60)]
pub proof fn law_a_source_row_is_reported(
    src: Seq<(i64, Seq<char>)>,
    doc: Seq<(i64, Seq<char>)>,
    k: int,
    i: usize,
    j: usize,
)
    requires
        0 <= k <= src.len() <= usize::MAX,
        doc.len() <= usize::MAX,
    ensures
        ({
            let found = tables::source_faults(src, doc, k);
            &&& found.contains(TableFault::Undocumented(i)) <==> i < k && forall|m: int|
                0 <= m < doc.len() ==> (#[trigger] doc[m]).0 != src[i as int].0
            &&& found.contains(TableFault::Renamed(i, j)) <==> i < k && j < doc.len() && doc[j as int].0
                == src[i as int].0 && doc[j as int].1 != src[i as int].1 && forall|m: int|
                0 <= m < j ==> (#[trigger] doc[m]).0 != src[i as int].0
        }),
    decreases k,
{
    if k > 0 {
        law_a_source_row_is_reported(src, doc, k - 1, i, j);
        let front = tables::source_faults(src, doc, k - 1);
        let here = (k - 1) as usize;
        lemma_first_row(doc, src[k - 1].0);
        match tables::row_of(doc, src[k - 1].0) {
            None => {
                lemma_pushed(front, TableFault::Undocumented(here), TableFault::Undocumented(i));
                lemma_pushed(front, TableFault::Undocumented(here), TableFault::Renamed(i, j));
            },
            Some(m) => {
                lemma_pushed(front, TableFault::Renamed(here, m as usize), TableFault::Undocumented(i));
                lemma_pushed(front, TableFault::Renamed(here, m as usize), TableFault::Renamed(i, j));
                if i == here {
                    assert(doc[m].0 == src[i as int].0);
                    assert(j < m || j == m || m < j);
                }
            },
        }
    }
}

/// A row of the document is reported as undefined exactly where the source has no row of its number.
#[verifier::spinoff_prover]
#[verifier::rlimit(60)]
pub proof fn law_a_document_row_is_reported(
    src: Seq<(i64, Seq<char>)>,
    doc: Seq<(i64, Seq<char>)>,
    k: int,
    i: usize,
)
    requires
        0 <= k <= doc.len() <= usize::MAX,
    ensures
        tables::doc_faults(src, doc, k).contains(TableFault::Undefined(i)) <==> i < k && forall|m: int|
            0 <= m < src.len() ==> (#[trigger] src[m]).0 != doc[i as int].0,
    decreases k,
{
    if k > 0 {
        law_a_document_row_is_reported(src, doc, k - 1, i);
        lemma_first_row(src, doc[k - 1].0);
        lemma_pushed(
            tables::doc_faults(src, doc, k - 1),
            TableFault::Undefined((k - 1) as usize),
            TableFault::Undefined(i),
        );
    }
}

proof fn lemma_first_row(s: Seq<(i64, Seq<char>)>, n: i64)
    ensures
        match tables::row_of(s, n) {
            Some(i) => 0 <= i < s.len() && s[i].0 == n && forall|m: int|
                0 <= m < i ==> (#[trigger] s[m]).0 != n,
            None => forall|m: int| 0 <= m < s.len() ==> (#[trigger] s[m]).0 != n,
        },
    decreases s.len(),
{
    if s.len() > 0 {
        let front = s.drop_last();
        lemma_first_row(front, n);
        assert forall|m: int| 0 <= m < front.len() implies front[m] == #[trigger] s[m] by {}
    }
}

/// Every line that gives a row gives it in its turn, and no other line does.
#[verifier::spinoff_prover]
#[verifier::rlimit(60)]
pub proof fn law_rows_are_gathered_in_order(
    a: Seq<Seq<char>>,
    b: Seq<Seq<char>>,
    f: spec_fn(Seq<char>) -> Option<(i64, Seq<char>)>,
)
    ensures
        tables::gathered(a + b, f) == tables::gathered(a, f) + tables::gathered(b, f),
        forall|line: Seq<char>| #[trigger]
            tables::gathered(seq![line], f) == match f(line) {
                Some(x) => seq![x],
                None => Seq::empty(),
            },
    decreases b.len(),
{
    reveal_with_fuel(tables::gathered, 2);
    assert forall|line: Seq<char>| #[trigger] tables::gathered(seq![line], f) == (match f(line) {
        Some(x) => seq![x],
        None => Seq::empty(),
    }) by {
        assert(seq![line].drop_last() =~= Seq::empty());
    }
    if b.len() == 0 {
        assert(a + b =~= a);
        assert(tables::gathered(a, f) + tables::gathered(b, f) =~= tables::gathered(a, f));
    } else {
        law_rows_are_gathered_in_order(a, b.drop_last(), f);
        assert((a + b).drop_last() =~= a + b.drop_last());
        assert((a + b).last() == b.last());
        assert(tables::gathered(a + b, f) =~= tables::gathered(a, f) + tables::gathered(b, f));
    }
}

/// A piece of inline code that spells a call with its parameters names it, where no piece before it
/// does; the first piece that begins as a hexadecimal number gives the number.
#[verifier::spinoff_prover]
#[verifier::rlimit(60)]
pub proof fn law_a_bullet_names_its_call(
    before: Seq<Seq<char>>,
    name: Seq<char>,
    parameters: Seq<char>,
    n: i64,
    after: Seq<Seq<char>>,
)
    requires
        is_identifier(name),
        n >= 0,
        forall|i: int|
            0 <= i < before.len() ==> !text::starts_with(#[trigger] before[i], "sys_"@)
                && !text::starts_with(before[i], "0x"@),
    ensures
        tables::first_name(before + seq!["sys_"@ + (name + "("@ + parameters)] + after) == Some(
            "sys_"@ + name,
        ),
        tables::first_number(before + seq!["0x"@ + number::numeral(n as nat, 16)] + after) == Some(n),
    decreases before.len(),
{
    let call = "sys_"@ + (name + "("@ + parameters);
    let num = "0x"@ + number::numeral(n as nat, 16);
    let a = before + seq![call] + after;
    let b = before + seq![num] + after;
    if before.len() == 0 {
        assert("("@.len() == 1 && "("@[0] == '(') by {
            reveal_strlit("(");
        }
        assert(a[0] == call);
        assert(b[0] == num);
        text::lemma_stands(Seq::empty(), "sys_"@, name + "("@ + parameters);
        assert(call.skip("sys_"@.len() as int) =~= name + "("@ + parameters);
        assert forall|i: int| 0 <= i < name.len() implies name[i] != '(' by {
            assert(text::is_ident(name[i]));
        }
        text::lemma_cut(name, "("@, parameters);
        text::lemma_stands(Seq::empty(), "0x"@, number::numeral(n as nat, 16));
        law_a_literal_is_read(n as i128);
    } else {
        assert(a[0] == before[0] && b[0] == before[0]);
        assert(a.skip(1) =~= before.skip(1) + seq![call] + after);
        assert(b.skip(1) =~= before.skip(1) + seq![num] + after);
        assert forall|i: int| 0 <= i < before.skip(1).len() implies !text::starts_with(
            #[trigger] before.skip(1)[i],
            "sys_"@,
        ) && !text::starts_with(before.skip(1)[i], "0x"@) by {
            assert(before.skip(1)[i] == before[i + 1]);
        }
        law_a_bullet_names_its_call(before.skip(1), name, parameters, n, after);
    }
}

/// A bullet's row is taken where system calls are documented, and a table's row everywhere.
#[verifier::spinoff_prover]
#[verifier::rlimit(60)]
pub proof fn law_bullets_document_calls(t: Seq<char>, calls: bool)
    requires
        t.len() > 0,
        !text::is_space(t[0]),
        !text::is_space(t.last()),
    ensures
        text::starts_with(t, "|"@) ==> tables::doc_row(t, calls) == tables::table_row(t),
        text::starts_with(t, "- "@) && calls ==> tables::doc_row(t, calls) == tables::bullet_row(t),
        text::starts_with(t, "- "@) && !calls ==> tables::doc_row(t, calls) is None,
{
    text::lemma_trim_plain(t);
    assert("|"@.len() == 1 && "|"@[0] == '|') by {
        reveal_strlit("|");
    }
    assert("- "@.len() == 2 && "- "@[0] == '-') by {
        reveal_strlit("- ");
    }
    if text::starts_with(t, "|"@) {
        assert(t.take(1)[0] == t[0]);
    }
    if text::starts_with(t, "- "@) {
        assert(t.take(2)[0] == t[0]);
    }
}

/// Declarations of calls are counted one by one, whether their numbers can be read or not.
#[verifier::spinoff_prover]
#[verifier::rlimit(60)]
pub proof fn law_declarations_are_counted(ls: Seq<Seq<char>>, line: Seq<char>)
    ensures
        tables::declared(Seq::empty()) == 0,
        tables::declared(ls.push(line)) == tables::declared(ls) + if text::starts_with(
            text::trim(line),
            "pub const SYS_"@,
        ) {
            1int
        } else {
            0int
        },
{
    assert(ls.push(line).drop_last() =~= ls);
}

/// The rows are put in order without loss: by number, and by name where the numbers are the same.
#[verifier::spinoff_prover]
#[verifier::rlimit(60)]
pub proof fn law_rows_are_ordered(s: Seq<(i64, Seq<char>)>)
    ensures
        tables::ordered(s).to_multiset() == s.to_multiset(),
        forall|i: int, j: int|
            0 <= i < j < s.len() ==> {
                let a = #[trigger] tables::ordered(s)[i];
                let b = #[trigger] tables::ordered(s)[j];
                a.0 < b.0 || (a.0 == b.0 && !table::before(b.1, a.1))
            },
        tables::ordered(s).len() == s.len(),
    decreases s.len(),
{
    broadcast use vstd::seq_lib::group_to_multiset_ensures;

    if s.len() > 0 {
        let front = s.drop_last();
        let x = s.last();
        law_rows_are_ordered(front);
        let o = tables::ordered(front);
        let k = tables::place(o, x) as int;
        lemma_place(o, x);
        let r = o.insert(k, x);
        assert(front.push(x) =~= s);
        assert(r.to_multiset() =~= s.to_multiset());
        assert forall|i: int, j: int| 0 <= i < j < s.len() implies {
            let a = #[trigger] r[i];
            let b = #[trigger] r[j];
            a.0 < b.0 || (a.0 == b.0 && !table::before(b.1, a.1))
        } by {
            let a = r[i];
            let b = r[j];
            table::lemma_total(a.1, b.1);
            table::lemma_total(a.1, x.1);
            table::lemma_total(x.1, b.1);
            if i < k {
                assert(a == o[i]);
            } else if i > k {
                assert(a == o[i - 1]);
            }
            if j < k {
                assert(b == o[j]);
            } else if j > k {
                assert(b == o[j - 1]);
            }
            if i == k && j > k {
                let c = o[k];
                assert(tables::behind(c, x));
                if j - 1 > k {
                    assert(c.0 < b.0 || (c.0 == b.0 && !table::before(b.1, c.1)));
                }
                if a.0 == b.0 && table::before(b.1, a.1) {
                    assert(c.0 == x.0 && c.0 == b.0);
                    table::lemma_transitive(b.1, x.1, c.1);
                    table::lemma_total(b.1, c.1);
                }
            }
            if j == k {
                assert(!tables::behind(o[i], x));
            }
        }
    }
}

proof fn lemma_place(s: Seq<(i64, Seq<char>)>, x: (i64, Seq<char>))
    ensures
        tables::place(s, x) <= s.len(),
        forall|i: int| 0 <= i < tables::place(s, x) ==> !tables::behind(#[trigger] s[i], x),
        tables::place(s, x) < s.len() ==> tables::behind(s[tables::place(s, x) as int], x),
    decreases s.len(),
{
    if s.len() > 0 && !tables::behind(s[0], x) {
        lemma_place(s.skip(1), x);
        assert forall|i: int| 0 <= i < tables::place(s, x) implies !tables::behind(#[trigger] s[i], x) by {
            if i > 0 {
                assert(s.skip(1)[i - 1] == s[i]);
            }
        }
    }
}

} // verus!
