//! The numbers that the kernel and the userspace library each write down, and whether the two
//! sets agree.

use vstd::prelude::*;

use crate::number;
use crate::table;
use crate::table::Table;
use crate::text;

verus! {

/// The shape of the lines that declare a family of constants.
#[derive(Debug, Clone, Copy, PartialEq, Eq, Structural)]
pub enum AbiShape {
    /// `pub const NAME: u64 = <int>;`
    U64Const,
    /// `Name = <int>,`: an enum's variant with its discriminant.
    EnumVariant,
    /// `pub const NAME: Rights = Rights(1 << k);`
    RightsBit,
    /// `pub const NAME: u16 = <int>;`, and the `i32` values beside them.
    U16Const,
}

/// `s` without its trailing semicolons and commas.
pub open spec fn trim_tail(s: Seq<char>) -> Seq<char>
    decreases s.len(),
{
    if s.len() > 0 && (s.last() == ';' || s.last() == ',') {
        trim_tail(s.drop_last())
    } else {
        s
    }
}

/// `s` without its underscores.
pub open spec fn without_underscores(s: Seq<char>) -> Seq<char>
    decreases s.len(),
{
    if s.len() == 0 {
        s
    } else if s.last() == '_' {
        without_underscores(s.drop_last())
    } else {
        without_underscores(s.drop_last()).push(s.last())
    }
}

/// The integer that a literal at the end of a declaration stands for: decimal, or hexadecimal
/// behind `0x`; underscores and a tail of `;` and `,` are passed over.
pub open spec fn int_literal(s: Seq<char>) -> Option<i128> {
    let t = without_underscores(text::trim(trim_tail(text::trim(s))));
    match text::strip_prefix(t, "0x"@) {
        Some(hex) => number::i128_of(hex, 16),
        None => match text::strip_prefix(t, "0X"@) {
            Some(hex) => number::i128_of(hex, 16),
            None => number::i128_of(t, 10),
        },
    }
}

/// The name, the type and the value of `pub const NAME: TYPE = VALUE`.
pub open spec fn declaration(t: Seq<char>) -> Option<(Seq<char>, Seq<char>, Seq<char>)> {
    match text::strip_prefix(t, "pub const "@) {
        None => None,
        Some(rest) => match text::split_once(rest, ":"@) {
            None => None,
            Some((name, tail)) => match text::split_once(tail, "="@) {
                None => None,
                Some((ty, val)) => Some((text::trim(name), text::trim(ty), val)),
            },
        },
    }
}

/// An ASCII capital.
pub open spec fn is_capital(c: char) -> bool {
    65 <= c as int <= 90
}

/// A variant's name: identifier characters, the first a capital.
pub open spec fn is_variant_name(s: Seq<char>) -> bool {
    s.len() > 0 && is_capital(s[0]) && forall|i: int|
        0 <= i < s.len() ==> text::is_ident(#[trigger] s[i])
}

/// The constant that a line of a source file declares in the shape, if it declares one. A shift
/// that leaves the 128 bits declares none.
pub open spec fn const_of(line: Seq<char>, shape: AbiShape) -> Option<(Seq<char>, i128)> {
    let t = text::trim(line);
    if text::starts_with(t, "//"@) {
        None
    } else {
        match shape {
            AbiShape::U64Const => match declaration(t) {
                Some((name, ty, val)) if ty == "u64"@ => match int_literal(val) {
                    Some(v) => Some((name, v)),
                    None => None,
                },
                _ => None,
            },
            AbiShape::U16Const => match declaration(t) {
                Some((name, ty, val)) if ty == "u16"@ || ty == "i32"@ => match int_literal(val) {
                    Some(v) => Some((name, v)),
                    None => None,
                },
                _ => None,
            },
            AbiShape::EnumVariant => if t.len() > 0 && t.last() == ',' {
                match text::split_once(t.drop_last(), "="@) {
                    Some((name, val)) if is_variant_name(text::trim(name)) => match int_literal(
                        val,
                    ) {
                        Some(v) => Some((text::trim(name), v)),
                        None => None,
                    },
                    _ => None,
                }
            } else {
                None
            },
            AbiShape::RightsBit => match text::strip_prefix(t, "pub const "@) {
                None => None,
                Some(rest) => match text::split_once(rest, ":"@) {
                    None => None,
                    Some((name, tail)) => if !text::contains(tail, "Rights("@) {
                        None
                    } else {
                        match text::split_once(tail, "1 <<"@) {
                            None => None,
                            Some((_, shifted)) => match number::u32_of(
                                text::leading_digits(text::trim_start(shifted)),
                            ) {
                                Some(k) if k < 128 => Some((text::trim(name), 1i128 << k)),
                                _ => None,
                            },
                        }
                    },
                },
            },
        }
    }
}

/// The constants of the lines; where a name is declared twice, the later value.
pub open spec fn consts(ls: Seq<Seq<char>>, shape: AbiShape) -> Map<Seq<char>, i128>
    decreases ls.len(),
{
    if ls.len() == 0 {
        Map::empty()
    } else {
        match const_of(ls.last(), shape) {
            Some((name, v)) => consts(ls.drop_last(), shape).insert(name, v),
            None => consts(ls.drop_last(), shape),
        }
    }
}

/// `s` without its trailing semicolons and commas.
pub fn tail_trimmed(s: &[char]) -> (r: &[char])
    ensures
        r@ == trim_tail(s@),
{
    let mut i: usize = s.len();
    assert(s@.take(s.len() as int) =~= s@);
    while i > 0 && (s[i - 1] == ';' || s[i - 1] == ',')
        invariant
            i <= s.len(),
            trim_tail(s@) == trim_tail(s@.take(i as int)),
        decreases i,
    {
        assert(s@.take(i as int).drop_last() =~= s@.take(i - 1));
        i = i - 1;
    }
    text::take(s, i)
}

/// `s` without its underscores.
pub fn underscores_removed(s: &[char]) -> (r: Vec<char>)
    ensures
        r@ == without_underscores(s@),
{
    let mut out: Vec<char> = Vec::new();
    let mut i: usize = 0;
    assert(s@.take(0) =~= Seq::<char>::empty());
    while i < s.len()
        invariant
            i <= s.len(),
            out@ == without_underscores(s@.take(i as int)),
        decreases s.len() - i,
    {
        assert(s@.take(i + 1).drop_last() =~= s@.take(i as int));
        if s[i] != '_' {
            out.push(s[i]);
        }
        i = i + 1;
    }
    assert(s@.take(i as int) =~= s@);
    out
}

/// The integer that a literal stands for.
pub fn parse_int(s: &str) -> (r: Option<i128>)
    ensures
        r == int_literal(s@),
{
    let c = text::chars_of(s);
    read_int(c.as_slice())
}

fn read_int(s: &[char]) -> (r: Option<i128>)
    ensures
        r == int_literal(s@),
{
    let t = underscores_removed(text::trimmed(tail_trimmed(text::trimmed(s))));
    match text::after_prefix(t.as_slice(), "0x") {
        Some(hex) => number::parse_i128(hex, 16),
        None => match text::after_prefix(t.as_slice(), "0X") {
            Some(hex) => number::parse_i128(hex, 16),
            None => number::parse_i128(t.as_slice(), 10),
        },
    }
}

fn read_declaration<'a>(t: &'a [char]) -> (r: Option<(&'a [char], &'a [char], &'a [char])>)
    ensures
        match r {
            Some((a, b, c)) => declaration(t@) == Some((a@, b@, c@)),
            None => declaration(t@) is None,
        },
{
    let rest = text::after_prefix(t, "pub const ")?;
    let (name, tail) = text::cut(rest, ":")?;
    let (ty, val) = text::cut(tail, "=")?;
    Some((text::trimmed(name), text::trimmed(ty), val))
}

fn variant_name(s: &[char]) -> (r: bool)
    ensures
        r == is_variant_name(s@),
{
    if s.len() == 0 {
        return false;
    }
    let c: char = s[0];
    let first: u32 = c as u32;
    if !(65 <= first && first <= 90) {
        return false;
    }
    text::all_ident(s)
}

fn read_const(line: &[char], shape: AbiShape) -> (r: Option<(String, i128)>)
    ensures
        match r {
            Some((n, v)) => const_of(line@, shape) == Some((n@, v)),
            None => const_of(line@, shape) is None,
        },
{
    let t = text::trimmed(line);
    if text::begins(t, "//") {
        return None;
    }
    match shape {
        AbiShape::U64Const => {
            let (name, ty, val) = read_declaration(t)?;
            if !text::equals(ty, "u64") {
                return None;
            }
            let v: i128 = read_int(val)?;
            Some((text::string_of(name), v))
        },
        AbiShape::U16Const => {
            let (name, ty, val) = read_declaration(t)?;
            if !text::equals(ty, "u16") && !text::equals(ty, "i32") {
                return None;
            }
            let v: i128 = read_int(val)?;
            Some((text::string_of(name), v))
        },
        AbiShape::EnumVariant => {
            if t.len() == 0 || t[t.len() - 1] != ',' {
                return None;
            }
            let body = text::take(t, t.len() - 1);
            assert(body@ =~= t@.drop_last());
            let (name, val) = text::cut(body, "=")?;
            let name = text::trimmed(name);
            if !variant_name(name) {
                return None;
            }
            let v: i128 = read_int(val)?;
            Some((text::string_of(name), v))
        },
        AbiShape::RightsBit => {
            let rest = text::after_prefix(t, "pub const ")?;
            let (name, tail) = text::cut(rest, ":")?;
            if !text::has_str(tail, "Rights(") {
                return None;
            }
            let (_, shifted) = text::cut(tail, "1 <<")?;
            let k: u32 = number::parse_u32(text::digits(text::trimmed_start(shifted)))?;
            if k >= 128 {
                return None;
            }
            Some((text::string_of(text::trimmed(name)), 1i128 << k))
        },
    }
}

/// The constants that a source file declares in the shape.
pub fn extract_consts(source: &str, shape: AbiShape) -> (r: Table<i128>)
    ensures
        r.wf(),
        r.holds(consts(text::lines(source@), shape)),
{
    let c = text::chars_of(source);
    let ls = text::lines_of(c.as_slice());
    let ghost all = text::lines(source@);
    let mut out: Table<i128> = Table::new();
    let mut i: usize = 0;
    assert(all.take(0) =~= Seq::empty());
    while i < ls.len()
        invariant
            i <= ls.len(),
            all == text::views(ls@),
            out.wf(),
            out.holds(consts(all.take(i as int), shape)),
        decreases ls.len() - i,
    {
        assert(all.take(i + 1).drop_last() =~= all.take(i as int));
        assert(all.take(i + 1).last() == ls[i as int]@);
        match read_const(ls[i], shape) {
            Some((name, v)) => {
                let ghost n = name@;
                out.insert(name, v);
                assert(out.holds(consts(all.take(i as int), shape).insert(n, v)));
            },
            None => {},
        }
        i = i + 1;
    }
    assert(all.take(i as int) =~= all);
    out
}

/// The value text of `pub const want: <type> = <value>`, whatever the type.
pub open spec fn named_value(line: Seq<char>, want: Seq<char>) -> Option<Seq<char>> {
    match declaration(text::trim(line)) {
        Some((name, _, val)) if name == want => Some(val),
        _ => None,
    }
}

/// The integer of the first line that declares `want`.
pub open spec fn named(ls: Seq<Seq<char>>, want: Seq<char>) -> Option<i128>
    decreases ls.len(),
{
    if ls.len() == 0 {
        None
    } else {
        match named_value(ls[0], want) {
            Some(val) => int_literal(val),
            None => named(ls.skip(1), want),
        }
    }
}

/// The integer of one constant, by its name.
pub fn extract_named(source: &str, want: &str) -> (r: Option<i128>)
    ensures
        r == named(text::lines(source@), want@),
{
    let c = text::chars_of(source);
    let ls = text::lines_of(c.as_slice());
    let ghost all = text::lines(source@);
    let mut i: usize = 0;
    assert(all.skip(0) =~= all);
    while i < ls.len()
        invariant
            i <= ls.len(),
            all == text::views(ls@),
            all == text::lines(source@),
            named(all, want@) == named(all.skip(i as int), want@),
        decreases ls.len() - i,
    {
        assert(all.skip(i as int)[0] == ls[i as int]@);
        assert(all.skip(i as int).skip(1) =~= all.skip(i + 1));
        match read_declaration(text::trimmed(ls[i])) {
            Some((name, _, val)) => {
                if text::equals(name, want) {
                    return read_int(val);
                }
            },
            None => {},
        }
        i = i + 1;
    }
    None
}

/// A disagreement on one name of a family.
#[derive(Debug)]
pub enum Mismatch {
    /// The two sides give different values.
    Differs { name: String, kernel: i128, user: i128 },
    /// The kernel has the name, userspace does not, and nothing says that this is meant.
    Missing { name: String },
    /// Userspace has the name, the kernel does not, and nothing says that this is meant.
    Unknown { name: String },
}

/// What a [`Mismatch`] says.
pub enum MismatchView {
    Differs { name: Seq<char>, kernel: i128, user: i128 },
    Missing { name: Seq<char> },
    Unknown { name: Seq<char> },
}

impl View for Mismatch {
    type V = MismatchView;

    open spec fn view(&self) -> MismatchView {
        match self {
            Mismatch::Differs { name, kernel, user } => MismatchView::Differs {
                name: name@,
                kernel: *kernel,
                user: *user,
            },
            Mismatch::Missing { name } => MismatchView::Missing { name: name@ },
            Mismatch::Unknown { name } => MismatchView::Unknown { name: name@ },
        }
    }
}

/// What the mismatches say.
pub open spec fn mismatches(v: Seq<Mismatch>) -> Seq<MismatchView> {
    v.map_values(|m: Mismatch| m@)
}

/// The disagreement on one of the kernel's names.
pub open spec fn disagreement(
    name: Seq<char>,
    kernel: i128,
    user: Map<Seq<char>, i128>,
    one_sided: Seq<Seq<char>>,
) -> Option<MismatchView> {
    if user.contains_key(name) {
        if user[name] == kernel {
            None
        } else {
            Some(MismatchView::Differs { name, kernel, user: user[name] })
        }
    } else if one_sided.contains(name) {
        None
    } else {
        Some(MismatchView::Missing { name })
    }
}

/// The disagreements on the kernel's names, in their order.
pub open spec fn disagreements(
    names: Seq<Seq<char>>,
    kernel: Map<Seq<char>, i128>,
    user: Map<Seq<char>, i128>,
    one_sided: Seq<Seq<char>>,
) -> Seq<MismatchView>
    decreases names.len(),
{
    if names.len() == 0 {
        Seq::empty()
    } else {
        let front = disagreements(names.drop_last(), kernel, user, one_sided);
        match disagreement(names.last(), kernel[names.last()], user, one_sided) {
            Some(m) => front.push(m),
            None => front,
        }
    }
}

/// What there is to say of userspace's names that the kernel does not have, in their order.
pub open spec fn unknowns(
    names: Seq<Seq<char>>,
    kernel: Map<Seq<char>, i128>,
    one_sided: Seq<Seq<char>>,
) -> Seq<MismatchView>
    decreases names.len(),
{
    if names.len() == 0 {
        Seq::empty()
    } else {
        let front = unknowns(names.drop_last(), kernel, one_sided);
        let name = names.last();
        if kernel.contains_key(name) || one_sided.contains(name) {
            front
        } else {
            front.push(MismatchView::Unknown { name })
        }
    }
}

/// The two sides agree: each name that either has is on both with one value, or on one side only and
/// meant to be.
pub open spec fn agreed(
    kernel: Map<Seq<char>, i128>,
    user: Map<Seq<char>, i128>,
    one_sided: Seq<Seq<char>>,
) -> bool {
    forall|n: Seq<char>|
        #![trigger kernel.contains_key(n)]
        #![trigger user.contains_key(n)]
        kernel.contains_key(n) || user.contains_key(n) ==> if kernel.contains_key(n)
            && user.contains_key(n) {
            kernel[n] == user[n]
        } else {
            one_sided.contains(n)
        }
}

/// How many of the names have the same value on both sides.
pub open spec fn agreements(
    names: Seq<Seq<char>>,
    kernel: Map<Seq<char>, i128>,
    user: Map<Seq<char>, i128>,
) -> nat
    decreases names.len(),
{
    if names.len() == 0 {
        0
    } else {
        let front = agreements(names.drop_last(), kernel, user);
        let n = names.last();
        if user.contains_key(n) && user[n] == kernel[n] {
            front + 1
        } else {
            front
        }
    }
}

/// Whether a name is among the strings.
pub fn listed(names: &Vec<String>, name: &str) -> (r: bool)
    ensures
        r == text::strs(names@).contains(name@),
{
    let c = text::chars_of(name);
    let mut i: usize = 0;
    while i < names.len()
        invariant
            i <= names.len(),
            c@ == name@,
            forall|j: int| 0 <= j < i ==> names[j]@ != name@,
        decreases names.len() - i,
    {
        let n = text::chars_of(names[i].as_str());
        if text::same(n.as_slice(), c.as_slice()) {
            assert(text::strs(names@)[i as int] == name@);
            return true;
        }
        i = i + 1;
    }
    assert forall|j: int| 0 <= j < text::strs(names@).len() implies text::strs(names@)[j] != name@ by {
        assert(text::strs(names@)[j] == names[j]@);
    }
    false
}

/// What comparing a family found.
#[derive(Debug)]
pub enum Family {
    /// The kernel's side has no constant of the family: its shape is not read any more.
    Stale,
    /// The names that agree, counted, and the disagreements.
    Compared { agree: usize, problems: Vec<Mismatch> },
}

/// Compares a family: what the kernel's source and userspace's source declare in the shape.
pub fn compare_family(kernel: &str, user: &str, shape: AbiShape, one_sided: &Vec<String>) -> (r:
    Family)
    ensures
        ({
            let k = consts(text::lines(kernel@), shape);
            let u = consts(text::lines(user@), shape);
            match r {
                Family::Stale => k.dom() =~= Set::empty(),
                Family::Compared { agree, problems } => exists|
                    names: Seq<Seq<char>>,
                    theirs: Seq<Seq<char>>,
                | {
                    &&& #[trigger] are_the_names(names, k)
                    &&& #[trigger] are_the_names(theirs, u)
                    &&& names.len() > 0
                    &&& mismatches(problems@) == disagreements(
                        names,
                        k,
                        u,
                        text::strs(one_sided@),
                    ) + unknowns(theirs, k, text::strs(one_sided@))
                    &&& agree == agreements(names, k, u)
                    &&& problems@.len() == 0 <==> agreed(k, u, text::strs(one_sided@))
                },
            }
        }),
{
    let ghost km = consts(text::lines(kernel@), shape);
    let ghost um = consts(text::lines(user@), shape);
    let k = extract_consts(kernel, shape);
    let u = extract_consts(user, shape);
    let ghost names = k.names();
    let ghost theirs = u.names();
    proof {
        assert(are_the_names(names, km));
        assert(are_the_names(theirs, um));
    }
    if k.len() == 0 {
        assert forall|x: Seq<char>| !km.dom().contains(x) by {
            if km.contains_key(x) {
                let i = choose|i: int| 0 <= i < names.len() && names[i] == x;
            }
        }
        assert(km.dom() =~= Set::empty());
        return Family::Stale;
    }
    let mut agree: usize = 0;
    let mut problems: Vec<Mismatch> = Vec::new();
    let mut i: usize = 0;
    assert(mismatches(problems@) =~= disagreements(names.take(0), km, um, text::strs(one_sided@)));
    while i < k.len()
        invariant
            i <= names.len(),
            names == k.names(),
            k.wf(),
            u.wf(),
            k.holds(km),
            u.holds(um),
            agree <= i,
            agree == agreements(names.take(i as int), km, um),
            mismatches(problems@) == disagreements(
                names.take(i as int),
                km,
                um,
                text::strs(one_sided@),
            ),
        decreases names.len() - i,
    {
        let ghost nm = names[i as int];
        proof {
            assert(names.take(i + 1).drop_last() =~= names.take(i as int));
            assert(names.take(i + 1).last() == nm);
            assert(km.contains_key(names[i as int]) && km[nm] == k.values()[i as int]);
        }
        let name = k.name(i);
        let kv: i128 = *k.value(i);
        let c = text::chars_of(name);
        match u.get(c.as_slice()) {
            Some(uv) => {
                proof {
                    let j = choose|j: int|
                        0 <= j < u.names().len() && u.names()[j] == nm && *uv == u.values()[j];
                    assert(um.contains_key(u.names()[j]) && um[nm] == *uv);
                }
                if *uv == kv {
                    agree = agree + 1;
                } else {
                    let m = Mismatch::Differs {
                        name: text::string_of(c.as_slice()),
                        kernel: kv,
                        user: *uv,
                    };
                    assert(mismatches(problems@.push(m)) =~= mismatches(problems@).push(m@));
                    problems.push(m);
                }
            },
            None => {
                assert(!um.contains_key(nm));
                if !listed(one_sided, name) {
                    let m = Mismatch::Missing { name: text::string_of(c.as_slice()) };
                    assert(mismatches(problems@.push(m)) =~= mismatches(problems@).push(m@));
                    problems.push(m);
                }
            },
        }
        i = i + 1;
    }
    assert(names.take(i as int) =~= names);
    let ghost of_kernel = mismatches(problems@);
    let mut j: usize = 0;
    assert(of_kernel + unknowns(theirs.take(0), km, text::strs(one_sided@)) =~= of_kernel);
    while j < u.len()
        invariant
            j <= theirs.len(),
            theirs == u.names(),
            k.wf(),
            u.wf(),
            k.holds(km),
            mismatches(problems@) == of_kernel + unknowns(
                theirs.take(j as int),
                km,
                text::strs(one_sided@),
            ),
        decreases theirs.len() - j,
    {
        let ghost nm = theirs[j as int];
        proof {
            assert(theirs.take(j + 1).drop_last() =~= theirs.take(j as int));
            assert(theirs.take(j + 1).last() == nm);
        }
        let name = u.name(j);
        let c = text::chars_of(name);
        match k.get(c.as_slice()) {
            Some(kv) => {
                proof {
                    let x = choose|x: int|
                        0 <= x < k.names().len() && k.names()[x] == nm && *kv == k.values()[x];
                    assert(km.contains_key(k.names()[x]));
                }
            },
            None => {
                assert(!km.contains_key(nm));
                if !listed(one_sided, name) {
                    let m = Mismatch::Unknown { name: text::string_of(c.as_slice()) };
                    let ghost front = unknowns(theirs.take(j as int), km, text::strs(one_sided@));
                    assert(mismatches(problems@.push(m)) =~= mismatches(problems@).push(m@));
                    assert((of_kernel + front).push(m@) =~= of_kernel + front.push(m@));
                    problems.push(m);
                }
            },
        }
        j = j + 1;
    }
    assert(theirs.take(j as int) =~= theirs);
    proof {
        law_no_problem_means_agreement(names, theirs, km, um, text::strs(one_sided@));
        assert(mismatches(problems@).len() == problems@.len());
    }
    Family::Compared { agree, problems }
}

/// `names` are the names of `m`, in ascending order.
pub open spec fn are_the_names(names: Seq<Seq<char>>, m: Map<Seq<char>, i128>) -> bool {
    &&& forall|i: int, j: int|
        0 <= i < j < names.len() ==> table::before(#[trigger] names[i], #[trigger] names[j])
    &&& forall|i: int| 0 <= i < names.len() ==> m.contains_key(#[trigger] names[i])
    &&& forall|k: Seq<char>| #[trigger]
        m.contains_key(k) ==> exists|i: int| 0 <= i < names.len() && names[i] == k
}

proof fn lemma_no_disagreement(
    names: Seq<Seq<char>>,
    kernel: Map<Seq<char>, i128>,
    user: Map<Seq<char>, i128>,
    one_sided: Seq<Seq<char>>,
)
    ensures
        disagreements(names, kernel, user, one_sided).len() == 0 <==> forall|i: int|
            0 <= i < names.len() ==> disagreement(
                #[trigger] names[i],
                kernel[names[i]],
                user,
                one_sided,
            ) is None,
    decreases names.len(),
{
    if names.len() > 0 {
        let front = names.drop_last();
        lemma_no_disagreement(front, kernel, user, one_sided);
        assert forall|i: int| 0 <= i < front.len() implies front[i] == #[trigger] names[i] by {}
        assert(names.last() == names[names.len() - 1]);
        if disagreements(names, kernel, user, one_sided).len() == 0 {
            assert forall|i: int| 0 <= i < names.len() implies disagreement(
                #[trigger] names[i],
                kernel[names[i]],
                user,
                one_sided,
            ) is None by {
                if i < front.len() {
                    assert(front[i] == names[i]);
                }
            }
        } else if disagreement(names.last(), kernel[names.last()], user, one_sided) is None {
            let i = choose|i: int|
                0 <= i < front.len() && disagreement(
                    #[trigger] front[i],
                    kernel[front[i]],
                    user,
                    one_sided,
                ) is Some;
            assert(names[i] == front[i]);
        }
    }
}

proof fn lemma_no_unknown(
    names: Seq<Seq<char>>,
    kernel: Map<Seq<char>, i128>,
    one_sided: Seq<Seq<char>>,
)
    ensures
        unknowns(names, kernel, one_sided).len() == 0 <==> forall|i: int|
            0 <= i < names.len() ==> kernel.contains_key(#[trigger] names[i])
                || one_sided.contains(names[i]),
    decreases names.len(),
{
    if names.len() > 0 {
        let front = names.drop_last();
        lemma_no_unknown(front, kernel, one_sided);
        assert(names.last() == names[names.len() - 1]);
        if unknowns(names, kernel, one_sided).len() == 0 {
            assert forall|i: int| 0 <= i < names.len() implies kernel.contains_key(
                #[trigger] names[i],
            ) || one_sided.contains(names[i]) by {
                if i < front.len() {
                    assert(front[i] == names[i]);
                }
            }
        } else if kernel.contains_key(names.last()) || one_sided.contains(names.last()) {
            let i = choose|i: int|
                0 <= i < front.len() && !kernel.contains_key(#[trigger] front[i])
                    && !one_sided.contains(front[i]);
            assert(names[i] == front[i]);
        }
    }
}

/// A family is without a problem exactly where the two sides agree on every name that either has.
pub proof fn law_no_problem_means_agreement(
    names: Seq<Seq<char>>,
    theirs: Seq<Seq<char>>,
    kernel: Map<Seq<char>, i128>,
    user: Map<Seq<char>, i128>,
    one_sided: Seq<Seq<char>>,
)
    requires
        are_the_names(names, kernel),
        are_the_names(theirs, user),
    ensures
        (disagreements(names, kernel, user, one_sided) + unknowns(
            theirs,
            kernel,
            one_sided,
        )).len() == 0 <==> agreed(kernel, user, one_sided),
{
    lemma_no_disagreement(names, kernel, user, one_sided);
    lemma_no_unknown(theirs, kernel, one_sided);
    let clean = (disagreements(names, kernel, user, one_sided) + unknowns(
        theirs,
        kernel,
        one_sided,
    )).len() == 0;
    if clean {
        assert forall|n: Seq<char>|
            #![trigger kernel.contains_key(n)]
            #![trigger user.contains_key(n)]
            kernel.contains_key(n) || user.contains_key(n) implies if kernel.contains_key(n)
            && user.contains_key(n) {
            kernel[n] == user[n]
        } else {
            one_sided.contains(n)
        } by {
            if kernel.contains_key(n) {
                let i = choose|i: int| 0 <= i < names.len() && names[i] == n;
                assert(disagreement(names[i], kernel[names[i]], user, one_sided) is None);
            } else {
                let i = choose|i: int| 0 <= i < theirs.len() && theirs[i] == n;
                assert(kernel.contains_key(theirs[i]) || one_sided.contains(theirs[i]));
            }
        }
    } else if disagreements(names, kernel, user, one_sided).len() > 0 {
        let i = choose|i: int|
            0 <= i < names.len() && disagreement(
                #[trigger] names[i],
                kernel[names[i]],
                user,
                one_sided,
            ) is Some;
        assert(kernel.contains_key(names[i]));
    } else {
        let i = choose|i: int|
            0 <= i < theirs.len() && !kernel.contains_key(#[trigger] theirs[i])
                && !one_sided.contains(theirs[i]);
        assert(user.contains_key(theirs[i]));
    }
}

proof fn lemma_consts_of_both(x: Seq<Seq<char>>, y: Seq<Seq<char>>, shape: AbiShape)
    ensures
        consts(x + y, shape) == consts(x, shape).union_prefer_right(consts(y, shape)),
    decreases y.len(),
{
    if y.len() == 0 {
        assert(x + y =~= x);
        assert(consts(x, shape).union_prefer_right(consts(y, shape)) =~= consts(x, shape));
    } else {
        lemma_consts_of_both(x, y.drop_last(), shape);
        assert((x + y).drop_last() =~= x + y.drop_last());
        assert((x + y).last() == y.last());
        assert(consts(x + y, shape) =~= consts(x, shape).union_prefer_right(consts(y, shape)));
    }
}

/// The constants of two sources, one behind the other, are those of both; where both declare a name,
/// the second's value.
pub proof fn law_a_later_declaration_wins(a: Seq<char>, b: Seq<char>, shape: AbiShape)
    ensures
        consts(text::lines(a + "\n"@ + b), shape) == consts(
            text::lines(a),
            shape,
        ).union_prefer_right(consts(text::lines(b), shape)),
{
    text::lemma_lines_join(a, b);
    lemma_consts_of_both(text::lines(a + "\n"@), text::lines(b), shape);
    text::lemma_lines_end(a);
    let x = text::lines(a);
    let y = text::lines(a + "\n"@);
    if y == x.push(Seq::empty()) {
        let none = Seq::<char>::empty();
        reveal_strlit("pub const ");
        assert(text::trim(none) =~= none);
        assert(const_of(none, shape) is None);
        assert(y.drop_last() =~= x);
    } else {
        let l = x.last();
        if l.len() > 0 && l.last() == '\r' {
            text::lemma_trim_push(l.drop_last(), '\r');
            assert(l.drop_last().push('\r') =~= l);
        }
        assert(const_of(text::strip_cr(l), shape) == const_of(l, shape));
        assert(y.drop_last() =~= x.drop_last());
    }
    assert(consts(y, shape) == consts(x, shape));
}

/// How a pair of constants compares that the two sides name each on its own.
#[derive(Debug, Clone, Copy, PartialEq, Eq, Structural)]
pub enum Pair {
    /// Both give the same value.
    Agree,
    /// They give these values.
    Differ(i128, i128),
    /// The kernel's could not be read.
    KernelUnread,
    /// Userspace's could not be read.
    UserUnread,
}

/// What a pair of constants comes to.
pub open spec fn compared(kernel: Option<i128>, user: Option<i128>) -> Pair {
    match (kernel, user) {
        (Some(a), Some(b)) => if a == b {
            Pair::Agree
        } else {
            Pair::Differ(a, b)
        },
        (None, _) => Pair::KernelUnread,
        (Some(_), None) => Pair::UserUnread,
    }
}

/// Compares a pair of constants, one of each side.
pub fn compare_pair(kernel: Option<i128>, user: Option<i128>) -> (r: Pair)
    ensures
        r == compared(kernel, user),
        r == (match (kernel, user) {
            (Some(a), Some(b)) => if a == b {
                Pair::Agree
            } else {
                Pair::Differ(a, b)
            },
            (None, _) => Pair::KernelUnread,
            (Some(_), None) => Pair::UserUnread,
        }),
{
    match (kernel, user) {
        (Some(a), Some(b)) => if a == b {
            Pair::Agree
        } else {
            Pair::Differ(a, b)
        },
        (None, _) => Pair::KernelUnread,
        (Some(_), None) => Pair::UserUnread,
    }
}

/// The left side and the variant of an arm `<left> => KError::Name,`.
pub open spec fn arm(line: Seq<char>) -> Option<(Seq<char>, Seq<char>)> {
    let t = text::trim(line);
    if text::starts_with(t, "//"@) {
        None
    } else {
        match text::split_once(t, "=>"@) {
            None => None,
            Some((lhs, rhs)) => match text::strip_prefix(text::trim_end_char(text::trim(rhs), ','), "KError::"@) {
                None => None,
                Some(name) => Some((text::trim(lhs), name)),
            },
        }
    }
}

/// The variant that each code decodes to; where a code has two arms, the later.
pub open spec fn arms(ls: Seq<Seq<char>>) -> Map<i128, Seq<char>>
    decreases ls.len(),
{
    if ls.len() == 0 {
        Map::empty()
    } else {
        let front = arms(ls.drop_last());
        match arm(ls.last()) {
            Some((lhs, name)) if lhs != "_"@ => match number::i128_of(lhs, 10) {
                Some(code) => front.insert(code, name),
                None => front,
            },
            _ => front,
        }
    }
}

/// The variant of the last `_` arm.
pub open spec fn catch_all(ls: Seq<Seq<char>>) -> Option<Seq<char>>
    decreases ls.len(),
{
    if ls.len() == 0 {
        None
    } else {
        match arm(ls.last()) {
            Some((lhs, name)) if lhs == "_"@ => Some(name),
            _ => catch_all(ls.drop_last()),
        }
    }
}

/// A variant that does not decode from its code.
#[derive(Debug)]
pub enum Undecoded {
    /// Its code decodes to another variant.
    Wrong { name: String, value: i128, mapped: String },
    /// Its code has no arm.
    NoArm { name: String, value: i128 },
}

/// What an [`Undecoded`] says.
pub enum UndecodedView {
    Wrong { name: Seq<char>, value: i128, mapped: Seq<char> },
    NoArm { name: Seq<char>, value: i128 },
}

impl View for Undecoded {
    type V = UndecodedView;

    open spec fn view(&self) -> UndecodedView {
        match self {
            Undecoded::Wrong { name, value, mapped } => UndecodedView::Wrong {
                name: name@,
                value: *value,
                mapped: mapped@,
            },
            Undecoded::NoArm { name, value } => UndecodedView::NoArm { name: name@, value: *value },
        }
    }
}

/// What the failures to decode say.
pub open spec fn undecoded_views(v: Seq<Undecoded>) -> Seq<UndecodedView> {
    v.map_values(|m: Undecoded| m@)
}

/// The failure to decode one variant. The variant of the `_` arm needs no arm of its own.
pub open spec fn undecoded(
    name: Seq<char>,
    value: i128,
    a: Map<i128, Seq<char>>,
    rest: Option<Seq<char>>,
) -> Option<UndecodedView> {
    if rest == Some(name) {
        None
    } else if !a.contains_key(value) {
        Some(UndecodedView::NoArm { name, value })
    } else if a[value] == name {
        None
    } else {
        Some(UndecodedView::Wrong { name, value, mapped: a[value] })
    }
}

/// The failures to decode the variants, in the order of their names.
pub open spec fn all_undecoded(
    names: Seq<Seq<char>>,
    kernel: Map<Seq<char>, i128>,
    a: Map<i128, Seq<char>>,
    rest: Option<Seq<char>>,
) -> Seq<UndecodedView>
    decreases names.len(),
{
    if names.len() == 0 {
        Seq::empty()
    } else {
        let front = all_undecoded(names.drop_last(), kernel, a, rest);
        match undecoded(names.last(), kernel[names.last()], a, rest) {
            Some(u) => front.push(u),
            None => front,
        }
    }
}

/// The arms that were read, in order, and the last catch-all.
struct Arms {
    codes: Vec<i128>,
    names: Vec<String>,
    rest: Option<String>,
}

impl Arms {
    spec fn wf(&self) -> bool {
        self.codes@.len() == self.names@.len()
    }

    spec fn map(&self, n: int) -> Map<i128, Seq<char>>
        decreases n,
    {
        if n <= 0 {
            Map::empty()
        } else {
            self.map(n - 1).insert(self.codes@[n - 1], self.names@[n - 1]@)
        }
    }

    proof fn lemma_map_same(&self, other: &Self, n: int)
        requires
            0 <= n <= self.codes@.len(),
            n <= other.codes@.len(),
            self.wf(),
            other.wf(),
            forall|i: int|
                0 <= i < n ==> self.codes@[i] == other.codes@[i] && self.names@[i]
                    == other.names@[i],
        ensures
            self.map(n) == other.map(n),
        decreases n,
    {
        if n > 0 {
            self.lemma_map_same(other, n - 1);
        }
    }

    fn find(&self, code: i128) -> (r: Option<usize>)
        requires
            self.wf(),
        ensures
            ({
                let m = self.map(self.codes@.len() as int);
                match r {
                    Some(i) => i < self.names@.len() && m.contains_key(code) && m[code]
                        == self.names@[i as int]@,
                    None => !m.contains_key(code),
                }
            }),
    {
        let mut i: usize = self.codes.len();
        while i > 0
            invariant
                i <= self.codes@.len(),
                self.wf(),
                self.map(self.codes@.len() as int).contains_key(code) == self.map(
                    i as int,
                ).contains_key(code),
                self.map(i as int).contains_key(code) ==> self.map(self.codes@.len() as int)[code]
                    == self.map(i as int)[code],
            decreases i,
        {
            if self.codes[i - 1] == code {
                return Some(i - 1);
            }
            i = i - 1;
        }
        None
    }
}

fn read_arms(source: &str) -> (r: Arms)
    ensures
        r.wf(),
        r.map(r.codes@.len() as int) == arms(text::lines(source@)),
        match r.rest {
            Some(n) => catch_all(text::lines(source@)) == Some(n@),
            None => catch_all(text::lines(source@)) is None,
        },
        r.codes@.len() == 0 ==> arms(text::lines(source@)) == Map::<i128, Seq<char>>::empty(),
        r.codes@.len() > 0 ==> !(arms(text::lines(source@)).dom() =~= Set::empty()),
{
    let c = text::chars_of(source);
    let ls = text::lines_of(c.as_slice());
    let ghost all = text::lines(source@);
    let mut out = Arms { codes: Vec::new(), names: Vec::new(), rest: None };
    let mut i: usize = 0;
    assert(all.take(0) =~= Seq::empty());
    while i < ls.len()
        invariant
            i <= ls.len(),
            all == text::views(ls@),
            out.wf(),
            out.map(out.codes@.len() as int) == arms(all.take(i as int)),
            match out.rest {
                Some(n) => catch_all(all.take(i as int)) == Some(n@),
                None => catch_all(all.take(i as int)) is None,
            },
        decreases ls.len() - i,
    {
        assert(all.take(i + 1).drop_last() =~= all.take(i as int));
        assert(all.take(i + 1).last() == ls[i as int]@);
        let t = text::trimmed(ls[i]);
        if !text::begins(t, "//") {
            match text::cut(t, "=>") {
                Some((lhs, rhs)) => {
                    match text::after_prefix(
                        text::trimmed_end_char(text::trimmed(rhs), ','),
                        "KError::",
                    ) {
                        Some(name) => {
                            let l = text::trimmed(lhs);
                            if text::equals(l, "_") {
                                let ghost was = out;
                                out.rest = Some(text::string_of(name));
                                proof {
                                    out.lemma_map_same(&was, was.codes@.len() as int);
                                }
                            } else {
                                match number::parse_i128(l, 10) {
                                    Some(code) => {
                                        let ghost was = out;
                                        let n = text::string_of(name);
                                        out.codes.push(code);
                                        out.names.push(n);
                                        proof {
                                            out.lemma_map_same(&was, was.codes@.len() as int);
                                        }
                                    },
                                    None => {},
                                }
                            }
                        },
                        None => {},
                    }
                },
                None => {},
            }
        }
        i = i + 1;
    }
    assert(all.take(i as int) =~= all);
    proof {
        if out.codes@.len() > 0 {
            let n = out.codes@.len() as int;
            assert(out.map(n).dom().contains(out.codes@[n - 1]));
        }
    }
    out
}

/// Why the decoding table is not the kernel's.
#[derive(Debug)]
pub enum DecodeFault {
    /// No variant was found in the kernel's source.
    NoVariants,
    /// No arm was found in userspace's source.
    NoArms,
    /// These variants do not decode.
    Undecoded(Vec<Undecoded>),
}

/// Checks that userspace decodes every error code of the kernel to its variant; gives their number.
pub fn check_kerror_decode_table(kernel: &str, user: &str) -> (r: Result<usize, DecodeFault>)
    ensures
        ({
            let k = consts(text::lines(kernel@), AbiShape::EnumVariant);
            let a = arms(text::lines(user@));
            let rest = catch_all(text::lines(user@));
            match r {
                Err(DecodeFault::NoVariants) => k.dom() =~= Set::empty(),
                Err(DecodeFault::NoArms) => !(k.dom() =~= Set::empty()) && a.dom() =~= Set::empty(),
                Ok(n) => !(a.dom() =~= Set::empty()) && exists|names: Seq<Seq<char>>|
                    #[trigger] are_the_names(names, k) && n == names.len() && n > 0
                        && all_undecoded(names, k, a, rest).len() == 0,
                Err(DecodeFault::Undecoded(v)) => !(a.dom() =~= Set::empty()) && v@.len() > 0
                    && exists|names: Seq<Seq<char>>|
                    #[trigger] are_the_names(names, k) && names.len() > 0 && undecoded_views(v@)
                        == all_undecoded(names, k, a, rest),
            }
        }),
{
    let ghost km = consts(text::lines(kernel@), AbiShape::EnumVariant);
    let ghost am = arms(text::lines(user@));
    let ghost rm = catch_all(text::lines(user@));
    let k = extract_consts(kernel, AbiShape::EnumVariant);
    let ghost names = k.names();
    proof {
        assert(are_the_names(names, km));
    }
    if k.len() == 0 {
        assert forall|x: Seq<char>| !km.dom().contains(x) by {
            if km.contains_key(x) {
                let i = choose|i: int| 0 <= i < names.len() && names[i] == x;
            }
        }
        assert(km.dom() =~= Set::empty());
        return Err(DecodeFault::NoVariants);
    }
    assert(km.dom().contains(names[0]));
    let a = read_arms(user);
    if a.codes.len() == 0 {
        assert(am.dom() =~= Set::empty());
        return Err(DecodeFault::NoArms);
    }
    let mut problems: Vec<Undecoded> = Vec::new();
    let mut i: usize = 0;
    assert(undecoded_views(problems@) =~= all_undecoded(names.take(0), km, am, rm));
    while i < k.len()
        invariant
            i <= names.len(),
            names == k.names(),
            k.wf(),
            k.holds(km),
            a.wf(),
            a.map(a.codes@.len() as int) == am,
            match a.rest {
                Some(n) => rm == Some(n@),
                None => rm is None,
            },
            undecoded_views(problems@) == all_undecoded(names.take(i as int), km, am, rm),
        decreases names.len() - i,
    {
        let ghost nm = names[i as int];
        proof {
            assert(names.take(i + 1).drop_last() =~= names.take(i as int));
            assert(names.take(i + 1).last() == nm);
            assert(km.contains_key(names[i as int]) && km[nm] == k.values()[i as int]);
        }
        let name = k.name(i);
        let value: i128 = *k.value(i);
        let c = text::chars_of(name);
        let caught = match &a.rest {
            Some(n) => {
                let nc = text::chars_of(n.as_str());
                text::same(nc.as_slice(), c.as_slice())
            },
            None => false,
        };
        if !caught {
            match a.find(value) {
                Some(j) => {
                    let mc = text::chars_of(a.names[j].as_str());
                    if !text::same(mc.as_slice(), c.as_slice()) {
                        let u = Undecoded::Wrong {
                            name: text::string_of(c.as_slice()),
                            value,
                            mapped: text::string_of(mc.as_slice()),
                        };
                        assert(undecoded_views(problems@.push(u)) =~= undecoded_views(
                            problems@,
                        ).push(u@));
                        problems.push(u);
                    }
                },
                None => {
                    let u = Undecoded::NoArm { name: text::string_of(c.as_slice()), value };
                    assert(undecoded_views(problems@.push(u)) =~= undecoded_views(problems@).push(
                        u@,
                    ));
                    problems.push(u);
                },
            }
        }
        i = i + 1;
    }
    assert(names.take(i as int) =~= names);
    assert(undecoded_views(problems@).len() == problems@.len());
    if problems.len() == 0 {
        Ok(k.len())
    } else {
        Err(DecodeFault::Undecoded(problems))
    }
}

/// The decoding table passes only where every variant but the catch-all's decodes from its code.
pub proof fn law_a_passing_table_decodes_every_variant(
    names: Seq<Seq<char>>,
    kernel: Map<Seq<char>, i128>,
    a: Map<i128, Seq<char>>,
    rest: Option<Seq<char>>,
)
    ensures
        all_undecoded(names, kernel, a, rest).len() == 0 <==> forall|i: int|
            0 <= i < names.len() ==> {
                let n = #[trigger] names[i];
                rest == Some(n) || (a.contains_key(kernel[n]) && a[kernel[n]] == n)
            },
    decreases names.len(),
{
    if names.len() > 0 {
        law_a_passing_table_decodes_every_variant(names.drop_last(), kernel, a, rest);
        assert(names.last() == names[names.len() - 1]);
        if all_undecoded(names, kernel, a, rest).len() == 0 {
            assert forall|i: int| 0 <= i < names.len() implies {
                let n = #[trigger] names[i];
                rest == Some(n) || (a.contains_key(kernel[n]) && a[kernel[n]] == n)
            } by {
                if i < names.len() - 1 {
                    assert(names.drop_last()[i] == names[i]);
                }
            }
        } else if forall|i: int|
            0 <= i < names.len() ==> {
                let n = #[trigger] names[i];
                rest == Some(n) || (a.contains_key(kernel[n]) && a[kernel[n]] == n)
            } {
            assert forall|i: int| 0 <= i < names.drop_last().len() implies {
                let n = #[trigger] names.drop_last()[i];
                rest == Some(n) || (a.contains_key(kernel[n]) && a[kernel[n]] == n)
            } by {
                assert(names.drop_last()[i] == names[i]);
            }
        }
    }
}

/// A family of constants that userspace repeats.
#[derive(Debug)]
pub struct AbiFamily {
    pub what: &'static str,
    pub kernel_file: &'static str,
    pub user_file: &'static str,
    pub shape: AbiShape,
    /// The names that userspace need not repeat.
    pub one_sided: Vec<String>,
}

/// A family, over what its strings hold.
pub struct FamilyView {
    pub what: Seq<char>,
    pub kernel_file: Seq<char>,
    pub user_file: Seq<char>,
    pub shape: AbiShape,
    pub one_sided: Seq<Seq<char>>,
}

impl View for AbiFamily {
    type V = FamilyView;

    open spec fn view(&self) -> FamilyView {
        FamilyView {
            what: self.what@,
            kernel_file: self.kernel_file@,
            user_file: self.user_file@,
            shape: self.shape,
            one_sided: text::strs(self.one_sided@),
        }
    }
}

/// How many families there are.
pub const FAMILIES: usize = 5;

/// The `i`th family.
pub open spec fn family_at(i: int) -> FamilyView {
    if i == 0 {
        FamilyView {
            what: "syscall numbers"@,
            kernel_file: "kernel/src/syscall/table.rs"@,
            user_file: "userspace/libkern/src/syscall.rs"@,
            shape: AbiShape::U64Const,
            one_sided: seq!["SYS_TEST_EXIT"@],
        }
    } else if i == 1 {
        FamilyView {
            what: "KError discriminants"@,
            kernel_file: "kernel/src/syscall/error.rs"@,
            user_file: "userspace/libkern/src/error.rs"@,
            shape: AbiShape::EnumVariant,
            one_sided: Seq::<Seq<char>>::empty(),
        }
    } else if i == 2 {
        FamilyView {
            what: "Rights bits"@,
            kernel_file: "kernel/src/libkern/handle.rs"@,
            user_file: "userspace/libkern/src/handle.rs"@,
            shape: AbiShape::RightsBit,
            one_sided: Seq::<Seq<char>>::empty(),
        }
    } else if i == 3 {
        FamilyView {
            what: "input event classes and codes"@,
            kernel_file: "kernel/src/libkern/input.rs"@,
            user_file: "userspace/libkern/src/abi.rs"@,
            shape: AbiShape::U16Const,
            one_sided: Seq::<Seq<char>>::empty(),
        }
    } else {
        FamilyView {
            what: "KObjectType discriminants"@,
            kernel_file: "kernel/src/libkern/handle.rs"@,
            user_file: "userspace/libkern/src/handle.rs"@,
            shape: AbiShape::EnumVariant,
            one_sided: Seq::<Seq<char>>::empty(),
        }
    }
}

fn family_of(
    what: &'static str,
    kernel_file: &'static str,
    user_file: &'static str,
    shape: AbiShape,
    exempt: Option<&'static str>,
) -> (r: AbiFamily)
    ensures
        r@ == (FamilyView {
            what: what@,
            kernel_file: kernel_file@,
            user_file: user_file@,
            shape,
            one_sided: match exempt {
                Some(s) => seq![s@],
                None => Seq::empty(),
            },
        }),
{
    let mut one_sided: Vec<String> = Vec::new();
    match exempt {
        Some(s) => {
            one_sided.push(String::from_str(s));
            assert(text::strs(one_sided@) =~= seq![s@]);
        },
        None => {
            assert(text::strs(one_sided@) =~= Seq::empty());
        },
    }
    AbiFamily { what, kernel_file, user_file, shape, one_sided }
}

/// The `i`th family.
pub fn family(i: usize) -> (r: AbiFamily)
    requires
        i < FAMILIES,
    ensures
        r@ == family_at(i as int),
{
    if i == 0 {
        family_of(
            "syscall numbers",
            "kernel/src/syscall/table.rs",
            "userspace/libkern/src/syscall.rs",
            AbiShape::U64Const,
            Some("SYS_TEST_EXIT"),
        )
    } else if i == 1 {
        family_of(
            "KError discriminants",
            "kernel/src/syscall/error.rs",
            "userspace/libkern/src/error.rs",
            AbiShape::EnumVariant,
            None,
        )
    } else if i == 2 {
        family_of(
            "Rights bits",
            "kernel/src/libkern/handle.rs",
            "userspace/libkern/src/handle.rs",
            AbiShape::RightsBit,
            None,
        )
    } else if i == 3 {
        family_of(
            "input event classes and codes",
            "kernel/src/libkern/input.rs",
            "userspace/libkern/src/abi.rs",
            AbiShape::U16Const,
            None,
        )
    } else {
        family_of(
            "KObjectType discriminants",
            "kernel/src/libkern/handle.rs",
            "userspace/libkern/src/handle.rs",
            AbiShape::EnumVariant,
            None,
        )
    }
}

/// How many pairs of limits are shared.
pub const PAIRS: usize = 2;

/// The `i`th shared limit: the kernel's file and name, and userspace's.
pub open spec fn pair_at(i: int) -> (Seq<char>, Seq<char>, Seq<char>, Seq<char>) {
    if i == 0 {
        (
            "kernel/src/object/thread.rs"@,
            "MAX_WAIT_HANDLES"@,
            "userspace/libkern/src/abi.rs"@,
            "MAX_WAIT_HANDLES"@,
        )
    } else {
        (
            "kernel/src/libkern/ipc.rs"@,
            "IPC_HANDLE_MAX"@,
            "userspace/libkern/src/abi.rs"@,
            "IPC_HANDLE_MAX"@,
        )
    }
}

/// The `i`th shared limit: the kernel's file and name, and userspace's.
pub fn pair(i: usize) -> (r: (&'static str, &'static str, &'static str, &'static str))
    requires
        i < PAIRS,
    ensures
        (r.0@, r.1@, r.2@, r.3@) == pair_at(i as int),
{
    if i == 0 {
        (
            "kernel/src/object/thread.rs",
            "MAX_WAIT_HANDLES",
            "userspace/libkern/src/abi.rs",
            "MAX_WAIT_HANDLES",
        )
    } else {
        (
            "kernel/src/libkern/ipc.rs",
            "IPC_HANDLE_MAX",
            "userspace/libkern/src/abi.rs",
            "IPC_HANDLE_MAX",
        )
    }
}

/// A pair agrees exactly where both sides were read and have one value; where they differ both values
/// are told, the kernel's first.
pub proof fn law_a_pair_agrees_where_both_are_read(kernel: Option<i128>, user: Option<i128>)
    ensures
        compared(kernel, user) is Agree <==> kernel is Some && user is Some && kernel == user,
        compared(kernel, user) matches Pair::Differ(a, b) ==> kernel == Some(a) && user == Some(b) && a != b,
        compared(kernel, user) is KernelUnread <==> kernel is None,
        compared(kernel, user) is UserUnread <==> kernel is Some && user is None,
{
}

} // verus!
