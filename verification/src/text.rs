//! Text as sequences of characters: searching, splitting and trimming, with the
//! meaning that the standard library's string methods of the same names have.

use vstd::prelude::*;
use vstd::slice::slice_subrange;

verus! {

/// `String::push` appends one character and changes nothing else.
pub assume_specification[ String::push ](s: &mut String, c: char)
    ensures
        final(s)@ == old(s)@.push(c),
;

/// White space: the characters with Unicode's `White_Space` property.
pub open spec fn is_space(c: char) -> bool {
    let n = c as int;
    ||| 9 <= n <= 13
    ||| n == 0x20
    ||| n == 0x85
    ||| n == 0xA0
    ||| n == 0x1680
    ||| 0x2000 <= n <= 0x200A
    ||| n == 0x2028
    ||| n == 0x2029
    ||| n == 0x202F
    ||| n == 0x205F
    ||| n == 0x3000
}

/// An ASCII digit.
pub open spec fn is_digit(c: char) -> bool {
    48 <= c as int <= 57
}

/// An ASCII letter or digit.
pub open spec fn is_alnum(c: char) -> bool {
    let n = c as int;
    48 <= n <= 57 || 65 <= n <= 90 || 97 <= n <= 122
}

/// A letter, digit or underscore of ASCII: what an identifier is made of.
pub open spec fn is_ident(c: char) -> bool {
    is_alnum(c) || c == '_'
}

/// `s` without its leading white space.
pub open spec fn trim_start(s: Seq<char>) -> Seq<char>
    decreases s.len(),
{
    if s.len() > 0 && is_space(s[0]) {
        trim_start(s.skip(1))
    } else {
        s
    }
}

/// `s` without its trailing white space.
pub open spec fn trim_end(s: Seq<char>) -> Seq<char>
    decreases s.len(),
{
    if s.len() > 0 && is_space(s.last()) {
        trim_end(s.drop_last())
    } else {
        s
    }
}

/// `s` without its leading and trailing white space.
pub open spec fn trim(s: Seq<char>) -> Seq<char> {
    trim_end(trim_start(s))
}

/// `s` without the leading run of `c`.
pub open spec fn trim_start_char(s: Seq<char>, c: char) -> Seq<char>
    decreases s.len(),
{
    if s.len() > 0 && s[0] == c {
        trim_start_char(s.skip(1), c)
    } else {
        s
    }
}

/// `s` without the trailing run of `c`.
pub open spec fn trim_end_char(s: Seq<char>, c: char) -> Seq<char>
    decreases s.len(),
{
    if s.len() > 0 && s.last() == c {
        trim_end_char(s.drop_last(), c)
    } else {
        s
    }
}

/// `pat` stands in `s` at position `i`.
pub open spec fn occurs_at(s: Seq<char>, pat: Seq<char>, i: int) -> bool {
    0 <= i && i + pat.len() <= s.len() && s.subrange(i, i + pat.len()) == pat
}

/// The first position from `i` on at which `pat` stands in `s`.
pub open spec fn find_from(s: Seq<char>, pat: Seq<char>, i: int) -> Option<int>
    decreases s.len() + 1 - i,
{
    if i < 0 || i + pat.len() > s.len() {
        None
    } else if occurs_at(s, pat, i) {
        Some(i)
    } else {
        find_from(s, pat, i + 1)
    }
}

/// The first position at which `pat` stands in `s`.
pub open spec fn find(s: Seq<char>, pat: Seq<char>) -> Option<int> {
    find_from(s, pat, 0)
}

/// `pat` stands somewhere in `s`.
pub open spec fn contains(s: Seq<char>, pat: Seq<char>) -> bool {
    exists|i: int| occurs_at(s, pat, i)
}

/// `s` begins with `pat`.
pub open spec fn starts_with(s: Seq<char>, pat: Seq<char>) -> bool {
    occurs_at(s, pat, 0)
}

/// `s` ends with `pat`.
pub open spec fn ends_with(s: Seq<char>, pat: Seq<char>) -> bool {
    occurs_at(s, pat, s.len() - pat.len())
}

/// What follows the prefix `pat` of `s`, if `s` begins with it.
pub open spec fn strip_prefix(s: Seq<char>, pat: Seq<char>) -> Option<Seq<char>> {
    if starts_with(s, pat) {
        Some(s.skip(pat.len() as int))
    } else {
        None
    }
}

/// What precedes and what follows the first `pat` in `s`.
pub open spec fn split_once(s: Seq<char>, pat: Seq<char>) -> Option<(Seq<char>, Seq<char>)> {
    match find(s, pat) {
        Some(i) => Some((s.take(i), s.skip(i + pat.len()))),
        None => None,
    }
}

/// The pieces of `s` between the occurrences of `pat`, which is not empty.
pub open spec fn split(s: Seq<char>, pat: Seq<char>) -> Seq<Seq<char>>
    decreases s.len(),
{
    proof {
        lemma_find(s, pat);
    }
    match find(s, pat) {
        Some(i) if pat.len() > 0 => seq![s.take(i)] + split(s.skip(i + pat.len()), pat),
        _ => seq![s],
    }
}

/// A line without the carriage return that stood before its line feed.
pub open spec fn strip_cr(s: Seq<char>) -> Seq<char> {
    if s.len() > 0 && s.last() == '\r' {
        s.drop_last()
    } else {
        s
    }
}

/// The lines of `s`: each ends at a line feed, which is no part of it, or at the end of the text.
pub open spec fn lines(s: Seq<char>) -> Seq<Seq<char>>
    decreases s.len(),
{
    proof {
        lemma_find(s, seq!['\n']);
    }
    match find(s, seq!['\n']) {
        Some(i) => seq![strip_cr(s.take(i))] + lines(s.skip(i + 1)),
        None => if s.len() == 0 {
            Seq::empty()
        } else {
            seq![s]
        },
    }
}

/// The number of leading characters of `s` that are not white space.
pub open spec fn word_len(s: Seq<char>) -> nat
    decreases s.len(),
{
    if s.len() > 0 && !is_space(s[0]) {
        1 + word_len(s.skip(1))
    } else {
        0
    }
}

/// The maximal runs of `s` without white space.
pub open spec fn words(s: Seq<char>) -> Seq<Seq<char>>
    decreases s.len(),
{
    proof {
        lemma_trim_start(s);
        lemma_word_len(trim_start(s));
    }
    let t = trim_start(s);
    if t.len() == 0 {
        Seq::empty()
    } else {
        seq![t.take(word_len(t) as int)] + words(t.skip(word_len(t) as int))
    }
}

/// The length of the leading run of ASCII digits.
pub open spec fn digit_run(s: Seq<char>) -> nat
    decreases s.len(),
{
    if s.len() > 0 && is_digit(s[0]) {
        1 + digit_run(s.skip(1))
    } else {
        0
    }
}

/// The leading ASCII digits of `s`.
pub open spec fn leading_digits(s: Seq<char>) -> Seq<char> {
    s.take(digit_run(s) as int)
}

/// The length of the leading run of identifier characters.
pub open spec fn ident_run(s: Seq<char>) -> nat
    decreases s.len(),
{
    if s.len() > 0 && is_ident(s[0]) {
        1 + ident_run(s.skip(1))
    } else {
        0
    }
}

/// The identifier that `s` begins with; empty where it begins with none.
pub open spec fn leading_ident(s: Seq<char>) -> Seq<char> {
    s.take(ident_run(s) as int)
}

/// The parts with `sep` between them.
pub open spec fn join(parts: Seq<Seq<char>>, sep: Seq<char>) -> Seq<char>
    decreases parts.len(),
{
    if parts.len() == 0 {
        Seq::empty()
    } else if parts.len() == 1 {
        parts[0]
    } else {
        join(parts.drop_last(), sep) + sep + parts.last()
    }
}

/// `s` with every `from` replaced by `to`.
pub open spec fn replace(s: Seq<char>, from: Seq<char>, to: Seq<char>) -> Seq<char> {
    join(split(s, from), to)
}

/// `s` without the leading run of `pat`s.
pub open spec fn strip_all(s: Seq<char>, pat: Seq<char>) -> Seq<char>
    decreases s.len(),
{
    if pat.len() > 0 && starts_with(s, pat) {
        strip_all(s.skip(pat.len() as int), pat)
    } else {
        s
    }
}

/// The pieces at the odd places: what stands between one `pat` and the next, from the first on.
pub open spec fn odd_pieces(p: Seq<Seq<char>>) -> Seq<Seq<char>>
    decreases p.len(),
{
    if p.len() < 2 {
        Seq::empty()
    } else {
        seq![p[1]] + odd_pieces(p.skip(2))
    }
}

/// What the slices hold.
pub open spec fn views(v: Seq<&[char]>) -> Seq<Seq<char>> {
    v.map_values(|x: &[char]| x@)
}

/// What the strings hold.
pub open spec fn strs(v: Seq<String>) -> Seq<Seq<char>> {
    v.map_values(|x: String| x@)
}

/// A found position is one at which the pattern stands, and there is none before it.
pub proof fn lemma_find_from(s: Seq<char>, pat: Seq<char>, from: int)
    requires
        0 <= from,
    ensures
        match find_from(s, pat, from) {
            Some(i) => from <= i && occurs_at(s, pat, i) && forall|j: int|
                from <= j < i ==> !occurs_at(s, pat, j),
            None => forall|j: int| from <= j ==> !occurs_at(s, pat, j),
        },
    decreases s.len() + 1 - from,
{
    if from + pat.len() <= s.len() && !occurs_at(s, pat, from) {
        lemma_find_from(s, pat, from + 1);
    }
}

/// The search finds the first occurrence, and finds one exactly where the pattern is contained.
pub proof fn lemma_find(s: Seq<char>, pat: Seq<char>)
    ensures
        match find(s, pat) {
            Some(i) => occurs_at(s, pat, i) && forall|j: int| j < i ==> !occurs_at(s, pat, j),
            None => forall|j: int| !occurs_at(s, pat, j),
        },
        find(s, pat) is Some <==> contains(s, pat),
{
    lemma_find_from(s, pat, 0);
}

/// Trimming the front never lengthens, and leaves no white space in front.
pub proof fn lemma_trim_start(s: Seq<char>)
    ensures
        trim_start(s).len() <= s.len(),
        trim_start(s).len() > 0 ==> !is_space(trim_start(s)[0]),
    decreases s.len(),
{
    if s.len() > 0 && is_space(s[0]) {
        lemma_trim_start(s.skip(1));
    }
}

/// A word lies inside the text it begins, and is not empty where the text does not begin with
/// white space.
pub proof fn lemma_word_len(s: Seq<char>)
    ensures
        word_len(s) <= s.len(),
        s.len() > 0 && !is_space(s[0]) ==> word_len(s) > 0,
    decreases s.len(),
{
    if s.len() > 0 && !is_space(s[0]) {
        lemma_word_len(s.skip(1));
    }
}

/// A run of digits lies inside the text.
pub proof fn lemma_digit_run(s: Seq<char>)
    ensures
        digit_run(s) <= s.len(),
        forall|i: int| 0 <= i < digit_run(s) ==> is_digit(s[i]),
        digit_run(s) < s.len() ==> !is_digit(s[digit_run(s) as int]),
    decreases s.len(),
{
    if s.len() > 0 && is_digit(s[0]) {
        lemma_digit_run(s.skip(1));
        assert forall|i: int| 0 <= i < digit_run(s) implies is_digit(s[i]) by {
            if i > 0 {
                assert(s.skip(1)[i - 1] == s[i]);
            }
        }
    }
}

/// A run of identifier characters lies inside the text.
pub proof fn lemma_ident_run(s: Seq<char>)
    ensures
        ident_run(s) <= s.len(),
    decreases s.len(),
{
    if s.len() > 0 && is_ident(s[0]) {
        lemma_ident_run(s.skip(1));
    }
}

/// No character of `s` is `c`.
pub open spec fn lacks(s: Seq<char>, c: char) -> bool {
    forall|i: int| 0 <= i < s.len() ==> s[i] != c
}

/// What stands between two texts stands in the whole, in front where nothing precedes it and at the
/// end where nothing follows.
pub proof fn lemma_stands(a: Seq<char>, pat: Seq<char>, b: Seq<char>)
    ensures
        occurs_at(a + pat + b, pat, a.len() as int),
        contains(a + pat + b, pat),
        starts_with(pat + b, pat),
        ends_with(a + pat, pat),
{
    let s = a + pat + b;
    let n = a.len() as int;
    assert(s.subrange(n, n + pat.len()) =~= pat);
    assert((pat + b).subrange(0, pat.len() as int) =~= pat);
    assert((a + pat).subrange(n, n + pat.len()) =~= pat);
    assert(occurs_at(s, pat, n));
}

/// A pattern does not stand in a text that lacks one of its characters.
pub proof fn lemma_lacking(s: Seq<char>, pat: Seq<char>, k: int)
    requires
        0 <= k < pat.len(),
        lacks(s, pat[k]),
    ensures
        !contains(s, pat),
        find(s, pat) is None,
        split(s, pat) == seq![s],
        split_once(s, pat) is None,
{
    assert forall|i: int| !occurs_at(s, pat, i) by {
        if occurs_at(s, pat, i) {
            assert(s.subrange(i, i + pat.len())[k] == s[i + k]);
        }
    }
    lemma_find(s, pat);
}

/// A text is cut at the pattern that follows a part in which the pattern cannot begin.
pub proof fn lemma_cut(a: Seq<char>, pat: Seq<char>, b: Seq<char>)
    requires
        pat.len() > 0,
        lacks(a, pat[0]),
    ensures
        find(a + pat + b, pat) == Some(a.len() as int),
        split_once(a + pat + b, pat) == Some((a, b)),
        split(a + pat + b, pat) == seq![a] + split(b, pat),
{
    let s = a + pat + b;
    lemma_stands(a, pat, b);
    lemma_find(s, pat);
    let i = find(s, pat)->0;
    assert(i >= a.len()) by {
        if i < a.len() {
            assert(s.subrange(i, i + pat.len())[0] == s[i]);
            assert(s[i] == a[i]);
        }
    }
    assert(s.take(i) =~= a);
    assert(s.skip(i + pat.len()) =~= b);
}

/// A text is cut at the pattern that ends its beginning, where that is the first one there.
pub proof fn lemma_cut_first(a: Seq<char>, pat: Seq<char>, b: Seq<char>)
    requires
        pat.len() > 0,
        find(a + pat, pat) == Some(a.len() as int),
    ensures
        find(a + pat + b, pat) == Some(a.len() as int),
        split_once(a + pat + b, pat) == Some((a, b)),
        split(a + pat + b, pat) == seq![a] + split(b, pat),
{
    let s = a + pat + b;
    let front = a + pat;
    lemma_stands(a, pat, b);
    lemma_find(s, pat);
    lemma_find(front, pat);
    let i = find(s, pat)->0;
    if i < a.len() {
        assert(front.subrange(i, i + pat.len()) =~= s.subrange(i, i + pat.len()));
        assert(occurs_at(front, pat, i));
    }
    assert(i == a.len());
    assert(s.take(i) =~= a);
    assert(s.skip(i + pat.len()) =~= b);
}

/// A pattern stands in a text only where it begins at one of the places that have its first character.
pub proof fn lemma_begins(s: Seq<char>, pat: Seq<char>, i: int, k: int)
    requires
        occurs_at(s, pat, i),
        0 <= k < pat.len(),
    ensures
        0 <= i,
        i + pat.len() <= s.len(),
        s[i + k] == pat[k],
{
    assert(s.subrange(i, i + pat.len())[k] == s[i + k]);
}

/// Digits in front of what is none are the leading digits.
pub proof fn lemma_leading_digits(a: Seq<char>, b: Seq<char>)
    requires
        forall|i: int| 0 <= i < a.len() ==> is_digit(#[trigger] a[i]),
        b.len() == 0 || !is_digit(b[0]),
    ensures
        digit_run(a + b) == a.len(),
        leading_digits(a + b) == a,
    decreases a.len(),
{
    let s = a + b;
    if a.len() == 0 {
        assert(s =~= b);
    } else {
        assert forall|i: int| 0 <= i < a.skip(1).len() implies is_digit(#[trigger] a.skip(1)[i]) by {
            assert(a.skip(1)[i] == a[i + 1]);
        }
        lemma_leading_digits(a.skip(1), b);
        assert(s.skip(1) =~= a.skip(1) + b);
        assert(s[0] == a[0]);
    }
    assert(s.take(a.len() as int) =~= a);
}

/// A text that neither begins nor ends with white space is its own trimming.
pub proof fn lemma_trim_plain(s: Seq<char>)
    requires
        s.len() > 0,
        !is_space(s[0]),
        !is_space(s.last()),
    ensures
        trim(s) == s,
        trim_start(s) == s,
{
}

/// A text that is one word: not empty, and without white space.
pub open spec fn is_word(s: Seq<char>) -> bool {
    s.len() > 0 && forall|i: int| 0 <= i < s.len() ==> !is_space(#[trigger] s[i])
}

proof fn lemma_word_run(a: Seq<char>, b: Seq<char>)
    requires
        forall|i: int| 0 <= i < a.len() ==> !is_space(#[trigger] a[i]),
        b.len() == 0 || is_space(b[0]),
    ensures
        word_len(a + b) == a.len(),
    decreases a.len(),
{
    let s = a + b;
    if a.len() == 0 {
        assert(s =~= b);
    } else {
        assert forall|i: int| 0 <= i < a.skip(1).len() implies !is_space(#[trigger] a.skip(1)[i]) by {
            assert(a.skip(1)[i] == a[i + 1]);
        }
        lemma_word_run(a.skip(1), b);
        assert(s.skip(1) =~= a.skip(1) + b);
        assert(s[0] == a[0]);
    }
}

/// A word in front of white space is the first of the words, and a word alone the only one.
pub proof fn lemma_words(a: Seq<char>, b: Seq<char>)
    requires
        is_word(a),
    ensures
        words(a) == seq![a],
        words(a + " "@ + b) == seq![a] + words(b),
{
    reveal_strlit(" ");
    reveal_with_fuel(words, 2);
    lemma_word_run(a, Seq::empty());
    assert(a + Seq::<char>::empty() =~= a);
    assert(trim_start(a) == a);
    assert(a.take(a.len() as int) =~= a);
    assert(a.skip(a.len() as int) =~= Seq::<char>::empty());
    assert(words(Seq::<char>::empty()) =~= Seq::empty());
    assert(words(a) =~= seq![a]);
    let t = " "@ + b;
    let s = a + " "@ + b;
    assert(s =~= a + t);
    lemma_word_run(a, t);
    assert(s[0] == a[0]);
    assert(trim_start(s) == s);
    assert(s.take(a.len() as int) =~= a);
    assert(s.skip(a.len() as int) =~= t);
    assert(t.skip(1) =~= b);
    assert(trim_start(t) == trim_start(b));
    assert(words(t) == words(b));
}

/// A line feed between two texts parts their lines.
pub proof fn lemma_lines_join(a: Seq<char>, b: Seq<char>)
    ensures
        lines(a + "\n"@ + b) == lines(a + "\n"@) + lines(b),
    decreases a.len(),
{
    reveal_strlit("\n");
    let nl = seq!['\n'];
    assert("\n"@ =~= nl);
    let all = a + nl + b;
    let front = a + nl;
    lemma_find(all, nl);
    lemma_find(front, nl);
    let n = a.len() as int;
    assert(front.subrange(n, n + 1) =~= nl);
    assert(occurs_at(front, nl, n));
    let i = find(front, nl)->0;
    assert(i <= a.len());
    assert forall|j: int| 0 <= j <= i implies occurs_at(all, nl, j) == occurs_at(front, nl, j) by {
        assert(all.subrange(j, j + 1) =~= front.subrange(j, j + 1));
    }
    assert(find(all, nl) == Some(i));
    assert(all.take(i) =~= front.take(i));
    if i < a.len() {
        let rest = a.skip(i + 1);
        assert(all.skip(i + 1) =~= rest + nl + b);
        assert(front.skip(i + 1) =~= rest + nl);
        lemma_lines_join(rest, b);
    } else {
        assert(all.skip(i + 1) =~= b);
        assert(front.skip(i + 1) =~= Seq::<char>::empty());
        lemma_find(Seq::<char>::empty(), nl);
    }
    let first = seq![strip_cr(front.take(i))];
    assert(lines(front) == first + lines(front.skip(i + 1)));
    assert(lines(all) =~= lines(front) + lines(b));
}

/// A line feed behind a text ends its last line, or where that has ended adds an empty one.
pub proof fn lemma_lines_end(a: Seq<char>)
    ensures
        ({
            let old_lines = lines(a);
            let new_lines = lines(a + "\n"@);
            ||| new_lines == old_lines.push(Seq::empty())
            ||| old_lines.len() > 0 && new_lines == old_lines.drop_last().push(
                strip_cr(old_lines.last()),
            )
        }),
    decreases a.len(),
{
    reveal_strlit("\n");
    let nl = seq!['\n'];
    assert("\n"@ =~= nl);
    lemma_find(a, nl);
    match find(a, nl) {
        Some(i) => {
            let rest = a.skip(i + 1);
            let head = a.take(i + 1);
            assert(head =~= a.take(i) + nl);
            assert(a =~= a.take(i) + nl + rest);
            assert(a + nl =~= a.take(i) + nl + (rest + nl));
            lemma_lines_join(a.take(i), rest);
            lemma_lines_join(a.take(i), rest + nl);
            lemma_lines_end(rest);
            let h = lines(a.take(i) + nl);
            let x = lines(rest);
            let y = lines(rest + nl);
            if y == x.push(Seq::empty()) {
                assert(h + y =~= (h + x).push(Seq::empty()));
            } else {
                assert((h + x).last() == x.last());
                assert(h + y =~= (h + x).drop_last().push(strip_cr(x.last())));
            }
        },
        None => {
            let all = a + nl;
            lemma_find(all, nl);
            let n = a.len() as int;
            assert(all.subrange(n, n + 1) =~= nl);
            assert(occurs_at(all, nl, n));
            assert forall|j: int| 0 <= j < n implies !occurs_at(all, nl, j) by {
                assert(all.subrange(j, j + 1) =~= a.subrange(j, j + 1));
                assert(!occurs_at(a, nl, j));
            }
            assert(find(all, nl) == Some(n));
            assert(all.take(n) =~= a);
            assert(all.skip(n + 1) =~= Seq::<char>::empty());
            lemma_find(Seq::<char>::empty(), nl);
            assert(lines(Seq::<char>::empty()) =~= Seq::empty());
            assert(lines(all) =~= seq![strip_cr(a)]);
            if n == 0 {
                assert(strip_cr(a) =~= Seq::<char>::empty());
                assert(lines(all) =~= lines(a).push(Seq::empty()));
            } else {
                assert(lines(all) =~= lines(a).drop_last().push(strip_cr(a)));
            }
        },
    }
}

proof fn lemma_trim_start_push(s: Seq<char>, c: char)
    requires
        is_space(c),
    ensures
        trim_start(s.push(c)) == (if trim_start(s).len() == 0 {
            Seq::empty()
        } else {
            trim_start(s).push(c)
        }),
    decreases s.len(),
{
    if s.len() == 0 {
        assert(s.push(c).skip(1) =~= Seq::<char>::empty());
        assert(trim_start(Seq::<char>::empty()) =~= Seq::empty());
    } else if is_space(s[0]) {
        assert(s.push(c).skip(1) =~= s.skip(1).push(c));
        lemma_trim_start_push(s.skip(1), c);
    }
}

/// White space at the end of a text is nothing to its trimming.
pub proof fn lemma_trim_push(s: Seq<char>, c: char)
    requires
        is_space(c),
    ensures
        trim(s.push(c)) == trim(s),
{
    lemma_trim_start_push(s, c);
    let t = trim_start(s);
    if t.len() == 0 {
        assert(t =~= Seq::<char>::empty());
    } else {
        assert(t.push(c).drop_last() =~= t);
    }
}

/// A character that the pattern does not hold lengthens the last piece of a split and changes
/// nothing else.
pub proof fn lemma_split_push(s: Seq<char>, pat: Seq<char>, c: char)
    requires
        pat.len() > 0,
        pat.last() != c,
    ensures
        ({
            let p = split(s, pat);
            p.len() > 0 && split(s.push(c), pat) == p.drop_last().push(p.last().push(c))
        }),
    decreases s.len(),
{
    let t = s.push(c);
    lemma_find(s, pat);
    lemma_find(t, pat);
    assert forall|j: int| 0 <= j implies occurs_at(t, pat, j) == occurs_at(s, pat, j) by {
        if j + pat.len() <= s.len() {
            assert(t.subrange(j, j + pat.len()) =~= s.subrange(j, j + pat.len()));
        } else if j + pat.len() == t.len() {
            assert(t.subrange(j, j + pat.len()).last() == c);
        }
    }
    match find(s, pat) {
        Some(i) => {
            assert(find(t, pat) == Some(i));
            let n = i + pat.len();
            assert(t.take(i) =~= s.take(i));
            assert(t.skip(n) =~= s.skip(n).push(c));
            lemma_split_push(s.skip(n), pat, c);
            let q = split(s.skip(n), pat);
            let p = seq![s.take(i)] + q;
            assert(p.last() == q.last());
            assert(seq![s.take(i)] + q.drop_last().push(q.last().push(c)) =~= p.drop_last().push(
                q.last().push(c),
            ));
        },
        None => {
            assert(find(t, pat) is None);
            assert(split(t, pat) =~= seq![s].drop_last().push(s.push(c)));
        },
    }
}

proof fn lemma_views_push(v: Seq<&[char]>, x: &[char])
    ensures
        views(v.push(x)) == views(v).push(x@),
{
    assert(views(v.push(x)) =~= views(v).push(x@));
}

/// Appending a string appends what it holds.
pub proof fn lemma_strs_push(v: Seq<String>, x: String)
    ensures
        strs(v.push(x)) == strs(v).push(x@),
{
    assert(strs(v.push(x)) =~= strs(v).push(x@));
}

/// The number of a character.
pub fn code(c: char) -> (r: u32)
    ensures
        r == c as int,
{
    c as u32
}

/// Whether `c` is white space.
pub fn space(c: char) -> (r: bool)
    ensures
        r == is_space(c),
{
    let n: u32 = c as u32;
    (9 <= n && n <= 13) || n == 0x20 || n == 0x85 || n == 0xA0 || n == 0x1680 || (0x2000 <= n && n
        <= 0x200A) || n == 0x2028 || n == 0x2029 || n == 0x202F || n == 0x205F || n == 0x3000
}

/// Whether `c` is an ASCII digit.
pub fn digit(c: char) -> (r: bool)
    ensures
        r == is_digit(c),
{
    let n: u32 = c as u32;
    48 <= n && n <= 57
}

/// Whether `c` is an ASCII letter or digit.
pub fn alnum(c: char) -> (r: bool)
    ensures
        r == is_alnum(c),
{
    let n: u32 = c as u32;
    (48 <= n && n <= 57) || (65 <= n && n <= 90) || (97 <= n && n <= 122)
}

/// The characters of `s`.
pub fn chars_of(s: &str) -> (r: Vec<char>)
    ensures
        r@ == s@,
{
    let mut out: Vec<char> = Vec::new();
    for c in it: s.chars()
        invariant
            out@ == it.seq().take(it.index()),
            it.seq() == s@,
    {
        out.push(c);
    }
    out
}

/// The string that holds the characters of `s`.
pub fn string_of(s: &[char]) -> (r: String)
    ensures
        r@ == s@,
{
    let mut out = String::new();
    let mut i: usize = 0;
    while i < s.len()
        invariant
            i <= s.len(),
            out@ == s@.take(i as int),
        decreases s.len() - i,
    {
        out.push(s[i]);
        i = i + 1;
        assert(s@.take(i as int) =~= s@.take(i - 1).push(s[i - 1]));
    }
    assert(s@.take(i as int) =~= s@);
    out
}

/// Whether two texts are the same.
pub fn same(a: &[char], b: &[char]) -> (r: bool)
    ensures
        r == (a@ == b@),
{
    if a.len() != b.len() {
        return false;
    }
    let mut i: usize = 0;
    while i < a.len()
        invariant
            i <= a.len(),
            a.len() == b.len(),
            forall|j: int| 0 <= j < i ==> a[j] == b[j],
        decreases a.len() - i,
    {
        if a[i] != b[i] {
            return false;
        }
        i = i + 1;
    }
    assert(a@ =~= b@);
    true
}

/// The part of `s` from `a` up to `b`.
pub fn slice(s: &[char], a: usize, b: usize) -> (r: &[char])
    requires
        a <= b <= s.len(),
    ensures
        r@ == s@.subrange(a as int, b as int),
{
    slice_subrange(s, a, b)
}

/// The part of `s` from `a` on.
pub fn skip(s: &[char], a: usize) -> (r: &[char])
    requires
        a <= s.len(),
    ensures
        r@ == s@.skip(a as int),
{
    slice_subrange(s, a, s.len())
}

/// The part of `s` before `b`.
pub fn take(s: &[char], b: usize) -> (r: &[char])
    requires
        b <= s.len(),
    ensures
        r@ == s@.take(b as int),
{
    slice_subrange(s, 0, b)
}

/// Whether `pat` stands in `s` at `i`.
pub fn stands_at(s: &[char], pat: &[char], i: usize) -> (r: bool)
    ensures
        r == occurs_at(s@, pat@, i as int),
{
    if i > s.len() || pat.len() > s.len() - i {
        return false;
    }
    let mut k: usize = 0;
    while k < pat.len()
        invariant
            k <= pat.len(),
            i + pat.len() <= s.len(),
            forall|j: int| 0 <= j < k ==> pat[j] == s[i + j],
        decreases pat.len() - k,
    {
        if s[i + k] != pat[k] {
            assert(s@.subrange(i as int, i + pat.len())[k as int] != pat[k as int]);
            return false;
        }
        k = k + 1;
    }
    assert(s@.subrange(i as int, i + pat.len()) =~= pat@);
    true
}

/// The first position from `from` on at which `pat` stands.
pub fn position_from(s: &[char], pat: &[char], from: usize) -> (r: Option<usize>)
    ensures
        match r {
            Some(i) => find_from(s@, pat@, from as int) == Some(i as int) && from <= i && i
                + pat.len() <= s.len(),
            None => find_from(s@, pat@, from as int) is None,
        },
{
    let mut i: usize = from;
    while i <= s.len() && pat.len() <= s.len() - i
        invariant
            from <= i,
            find_from(s@, pat@, from as int) == find_from(s@, pat@, i as int),
        decreases s.len() + 1 - i,
    {
        if stands_at(s, pat, i) {
            return Some(i);
        }
        if i == s.len() {
            assert(find_from(s@, pat@, i as int) == find_from(s@, pat@, i + 1));
            return None;
        }
        i = i + 1;
    }
    None
}

/// The first position at which `pat` stands.
pub fn position(s: &[char], pat: &[char]) -> (r: Option<usize>)
    ensures
        match r {
            Some(i) => find(s@, pat@) == Some(i as int) && i + pat.len() <= s.len(),
            None => find(s@, pat@) is None,
        },
{
    position_from(s, pat, 0)
}

/// Whether `pat` stands in `s`.
pub fn has(s: &[char], pat: &[char]) -> (r: bool)
    ensures
        r == contains(s@, pat@),
{
    proof {
        lemma_find(s@, pat@);
    }
    position(s, pat).is_some()
}

/// Whether the literal `pat` stands in `s`.
pub fn has_str(s: &[char], pat: &str) -> (r: bool)
    ensures
        r == contains(s@, pat@),
{
    let p = chars_of(pat);
    has(s, p.as_slice())
}

/// Whether `s` begins with the literal `pat`.
pub fn begins(s: &[char], pat: &str) -> (r: bool)
    ensures
        r == starts_with(s@, pat@),
{
    let p = chars_of(pat);
    stands_at(s, p.as_slice(), 0)
}

/// Whether `s` ends with the literal `pat`.
pub fn ends(s: &[char], pat: &str) -> (r: bool)
    ensures
        r == ends_with(s@, pat@),
{
    let p = chars_of(pat);
    if p.len() > s.len() {
        false
    } else {
        stands_at(s, p.as_slice(), s.len() - p.len())
    }
}

/// Whether `s` is the literal `lit`.
pub fn equals(s: &[char], lit: &str) -> (r: bool)
    ensures
        r == (s@ == lit@),
{
    let p = chars_of(lit);
    same(s, p.as_slice())
}

/// What follows the prefix `pat`.
pub fn after_prefix<'a>(s: &'a [char], pat: &str) -> (r: Option<&'a [char]>)
    ensures
        match r {
            Some(t) => strip_prefix(s@, pat@) == Some(t@),
            None => strip_prefix(s@, pat@) is None,
        },
{
    let p = chars_of(pat);
    if stands_at(s, p.as_slice(), 0) {
        Some(skip(s, p.len()))
    } else {
        None
    }
}

/// What precedes and what follows the first `pat`.
pub fn cut<'a>(s: &'a [char], pat: &str) -> (r: Option<(&'a [char], &'a [char])>)
    ensures
        match r {
            Some((a, b)) => split_once(s@, pat@) == Some((a@, b@)),
            None => split_once(s@, pat@) is None,
        },
{
    let p = chars_of(pat);
    match position(s, p.as_slice()) {
        Some(i) => Some((take(s, i), skip(s, i + p.len()))),
        None => None,
    }
}

/// `s` without its leading white space.
pub fn trimmed_start(s: &[char]) -> (r: &[char])
    ensures
        r@ == trim_start(s@),
{
    let mut i: usize = 0;
    assert(s@.skip(0) =~= s@);
    while i < s.len() && space(s[i])
        invariant
            i <= s.len(),
            trim_start(s@) == trim_start(s@.skip(i as int)),
        decreases s.len() - i,
    {
        assert(s@.skip(i as int).skip(1) =~= s@.skip(i + 1));
        i = i + 1;
    }
    skip(s, i)
}

/// `s` without its trailing white space.
pub fn trimmed_end(s: &[char]) -> (r: &[char])
    ensures
        r@ == trim_end(s@),
{
    let mut i: usize = s.len();
    assert(s@.take(s.len() as int) =~= s@);
    while i > 0 && space(s[i - 1])
        invariant
            i <= s.len(),
            trim_end(s@) == trim_end(s@.take(i as int)),
        decreases i,
    {
        assert(s@.take(i as int).drop_last() =~= s@.take(i - 1));
        i = i - 1;
    }
    take(s, i)
}

/// `s` without its leading and trailing white space.
pub fn trimmed(s: &[char]) -> (r: &[char])
    ensures
        r@ == trim(s@),
{
    trimmed_end(trimmed_start(s))
}

/// `s` without the leading run of `c`.
pub fn trimmed_char(s: &[char], c: char) -> (r: &[char])
    ensures
        r@ == trim_start_char(s@, c),
{
    let mut i: usize = 0;
    assert(s@.skip(0) =~= s@);
    while i < s.len() && s[i] == c
        invariant
            i <= s.len(),
            trim_start_char(s@, c) == trim_start_char(s@.skip(i as int), c),
        decreases s.len() - i,
    {
        assert(s@.skip(i as int).skip(1) =~= s@.skip(i + 1));
        i = i + 1;
    }
    skip(s, i)
}

/// `s` without the trailing run of `c`.
pub fn trimmed_end_char(s: &[char], c: char) -> (r: &[char])
    ensures
        r@ == trim_end_char(s@, c),
{
    let mut i: usize = s.len();
    assert(s@.take(s.len() as int) =~= s@);
    while i > 0 && s[i - 1] == c
        invariant
            i <= s.len(),
            trim_end_char(s@, c) == trim_end_char(s@.take(i as int), c),
        decreases i,
    {
        assert(s@.take(i as int).drop_last() =~= s@.take(i - 1));
        i = i - 1;
    }
    take(s, i)
}

/// The length of the leading run of ASCII digits.
pub fn digits_len(s: &[char]) -> (r: usize)
    ensures
        r == digit_run(s@),
        r <= s.len(),
{
    let mut i: usize = 0;
    assert(s@.skip(0) =~= s@);
    while i < s.len() && digit(s[i])
        invariant
            i <= s.len(),
            digit_run(s@) == i + digit_run(s@.skip(i as int)),
        decreases s.len() - i,
    {
        assert(s@.skip(i as int).skip(1) =~= s@.skip(i + 1));
        i = i + 1;
    }
    i
}

/// The leading ASCII digits.
pub fn digits(s: &[char]) -> (r: &[char])
    ensures
        r@ == leading_digits(s@),
{
    let n: usize = digits_len(s);
    take(s, n)
}

/// The identifier that `s` begins with.
pub fn ident(s: &[char]) -> (r: &[char])
    ensures
        r@ == leading_ident(s@),
{
    let mut i: usize = 0;
    assert(s@.skip(0) =~= s@);
    while i < s.len() && (alnum(s[i]) || s[i] == '_')
        invariant
            i <= s.len(),
            ident_run(s@) == i + ident_run(s@.skip(i as int)),
        decreases s.len() - i,
    {
        assert(s@.skip(i as int).skip(1) =~= s@.skip(i + 1));
        i = i + 1;
    }
    take(s, i)
}

/// The pieces of `s` between the occurrences of `pat`.
pub fn pieces<'a>(s: &'a [char], pat: &str) -> (r: Vec<&'a [char]>)
    requires
        pat@.len() > 0,
    ensures
        views(r@) == split(s@, pat@),
        r.len() >= 1,
{
    let p = chars_of(pat);
    let mut out: Vec<&'a [char]> = Vec::new();
    let mut rest: &'a [char] = s;
    loop
        invariant_except_break
            views(out@) + split(rest@, pat@) == split(s@, pat@),
        invariant
            p@ == pat@,
            p.len() > 0,
        ensures
            views(out@) == split(s@, pat@),
            out.len() >= 1,
        decreases rest.len(),
    {
        proof {
            lemma_find(rest@, pat@);
        }
        match position(rest, p.as_slice()) {
            Some(i) => {
                let head = take(rest, i);
                let tail = skip(rest, i + p.len());
                proof {
                    lemma_views_push(out@, head);
                    assert(views(out@) + (seq![head@] + split(tail@, pat@)) =~= views(
                        out@,
                    ).push(head@) + split(tail@, pat@));
                }
                out.push(head);
                rest = tail;
            },
            None => {
                proof {
                    lemma_views_push(out@, rest);
                    assert(views(out@) + seq![rest@] =~= views(out@).push(rest@));
                }
                out.push(rest);
                break;
            },
        }
    }
    out
}

/// Appends `s`.
pub fn extend(out: &mut Vec<char>, s: &[char])
    ensures
        final(out)@ == old(out)@ + s@,
{
    let ghost start = out@;
    let mut i: usize = 0;
    assert(start + s@.take(0) =~= start);
    while i < s.len()
        invariant
            i <= s.len(),
            out@ == start + s@.take(i as int),
        decreases s.len() - i,
    {
        out.push(s[i]);
        i = i + 1;
        assert(start + s@.take(i as int) =~= (start + s@.take(i - 1)).push(s[i - 1]));
    }
    assert(s@.take(i as int) =~= s@);
}

/// The parts with `sep` between them.
pub fn joined(parts: &Vec<&[char]>, sep: &str) -> (r: Vec<char>)
    ensures
        r@ == join(views(parts@), sep@),
{
    let ghost all = views(parts@);
    let p = chars_of(sep);
    let mut out: Vec<char> = Vec::new();
    let mut i: usize = 0;
    assert(all.take(0) =~= Seq::empty());
    while i < parts.len()
        invariant
            i <= parts.len(),
            p@ == sep@,
            all == views(parts@),
            out@ == join(all.take(i as int), sep@),
        decreases parts.len() - i,
    {
        assert(all.take(i + 1).drop_last() =~= all.take(i as int));
        assert(all.take(i + 1).last() == parts[i as int]@);
        if i > 0 {
            extend(&mut out, p.as_slice());
        }
        extend(&mut out, parts[i]);
        proof {
            if i == 0 {
                assert(out@ =~= parts[0]@);
                assert(all.take(1)[0] == parts[0]@);
            }
        }
        i = i + 1;
    }
    assert(all.take(i as int) =~= all);
    out
}

/// `s` with every `from` replaced by `to`.
pub fn replaced(s: &[char], from: &str, to: &str) -> (r: Vec<char>)
    requires
        from@.len() > 0,
    ensures
        r@ == replace(s@, from@, to@),
{
    let p = pieces(s, from);
    joined(&p, to)
}

/// `s` without the leading run of `pat`s.
pub fn stripped_all<'a>(s: &'a [char], pat: &str) -> (r: &'a [char])
    requires
        pat@.len() > 0,
    ensures
        r@ == strip_all(s@, pat@),
{
    let mut rest: &'a [char] = s;
    loop
        invariant
            strip_all(rest@, pat@) == strip_all(s@, pat@),
            pat@.len() > 0,
        decreases rest.len(),
    {
        match after_prefix(rest, pat) {
            Some(t) => {
                rest = t;
            },
            None => {
                return rest;
            },
        }
    }
}

/// The pieces at the odd places.
pub fn odd<'a>(p: &Vec<&'a [char]>) -> (r: Vec<&'a [char]>)
    ensures
        views(r@) == odd_pieces(views(p@)),
{
    let ghost all = views(p@);
    let mut out: Vec<&'a [char]> = Vec::new();
    let mut i: usize = 0;
    assert(all.skip(0) =~= all);
    assert(views(out@) + odd_pieces(all) =~= odd_pieces(all));
    while p.len() - i >= 2
        invariant
            i <= p.len(),
            all == views(p@),
            views(out@) + odd_pieces(all.skip(i as int)) == odd_pieces(all),
        decreases p.len() - i,
    {
        let x = p[i + 1];
        proof {
            assert(all.skip(i as int)[1] == x@);
            assert(all.skip(i as int).skip(2) =~= all.skip(i + 2));
            lemma_views_push(out@, x);
            let t = odd_pieces(all.skip(i + 2));
            assert(views(out@) + (seq![x@] + t) =~= views(out@).push(x@) + t);
        }
        out.push(x);
        i = i + 2;
    }
    assert(views(out@) + Seq::<Seq<char>>::empty() =~= views(out@));
    out
}

/// Whether every character of `s` is one of an identifier.
pub fn all_ident(s: &[char]) -> (r: bool)
    ensures
        r == forall|i: int| 0 <= i < s@.len() ==> is_ident(#[trigger] s@[i]),
{
    let mut i: usize = 0;
    while i < s.len()
        invariant
            i <= s.len(),
            forall|j: int| 0 <= j < i ==> is_ident(#[trigger] s@[j]),
        decreases s.len() - i,
    {
        if !(alnum(s[i]) || s[i] == '_') {
            assert(!is_ident(s@[i as int]));
            return false;
        }
        i = i + 1;
    }
    true
}

/// The lines of `s`.
pub fn lines_of(s: &[char]) -> (r: Vec<&[char]>)
    ensures
        views(r@) == lines(s@),
{
    let mut out: Vec<&[char]> = Vec::new();
    let mut rest: &[char] = s;
    let nl: [char; 1] = ['\n'];
    assert(nl@ =~= seq!['\n']);
    loop
        invariant_except_break
            views(out@) + lines(rest@) == lines(s@),
        invariant
            nl@ == seq!['\n'],
        ensures
            views(out@) == lines(s@),
        decreases rest.len(),
    {
        proof {
            lemma_find(rest@, seq!['\n']);
        }
        match position(rest, nl.as_slice()) {
            Some(i) => {
                let full = take(rest, i);
                let line = if i > 0 && full[i - 1] == '\r' {
                    take(full, i - 1)
                } else {
                    full
                };
                let tail = skip(rest, i + 1);
                proof {
                    if i > 0 && full[i - 1] == '\r' {
                        assert(full@.drop_last() =~= full@.take(i - 1));
                    }
                    assert(line@ == strip_cr(full@));
                    lemma_views_push(out@, line);
                    assert(views(out@) + (seq![line@] + lines(tail@)) =~= views(out@).push(line@)
                        + lines(tail@));
                }
                out.push(line);
                rest = tail;
            },
            None => {
                if rest.len() > 0 {
                    proof {
                        lemma_views_push(out@, rest);
                        assert(views(out@) + seq![rest@] =~= views(out@).push(rest@));
                    }
                    out.push(rest);
                } else {
                    assert(views(out@) + Seq::<Seq<char>>::empty() =~= views(out@));
                }
                break;
            },
        }
    }
    out
}

/// The words of `s`.
pub fn words_of(s: &[char]) -> (r: Vec<&[char]>)
    ensures
        views(r@) == words(s@),
{
    let mut out: Vec<&[char]> = Vec::new();
    let mut rest: &[char] = s;
    loop
        invariant_except_break
            views(out@) + words(rest@) == words(s@),
        ensures
            views(out@) == words(s@),
        decreases rest.len(),
    {
        let t = trimmed_start(rest);
        proof {
            lemma_trim_start(rest@);
            lemma_word_len(t@);
        }
        if t.len() == 0 {
            assert(views(out@) + Seq::<Seq<char>>::empty() =~= views(out@));
            break;
        }
        let mut n: usize = 0;
        assert(t@.skip(0) =~= t@);
        while n < t.len() && !space(t[n])
            invariant
                n <= t.len(),
                word_len(t@) == n + word_len(t@.skip(n as int)),
            decreases t.len() - n,
        {
            assert(t@.skip(n as int).skip(1) =~= t@.skip(n + 1));
            n = n + 1;
        }
        let word = take(t, n);
        let tail = skip(t, n);
        proof {
            lemma_views_push(out@, word);
            assert(views(out@) + (seq![word@] + words(tail@)) =~= views(out@).push(word@) + words(
                tail@,
            ));
        }
        out.push(word);
        rest = tail;
    }
    out
}

/// What the borrowed strings hold.
pub open spec fn lits(v: Seq<&str>) -> Seq<Seq<char>> {
    v.map_values(|s: &str| s@)
}

/// The strings as a list that owns them.
pub fn owned(v: &Vec<&str>) -> (r: Vec<String>)
    ensures
        strs(r@) == lits(v@),
{
    let mut out: Vec<String> = Vec::new();
    let ghost all = lits(v@);
    let mut i: usize = 0;
    assert(strs(out@) =~= all.take(0));
    while i < v.len()
        invariant
            i <= v.len(),
            all == lits(v@),
            strs(out@) == all.take(i as int),
        decreases v.len() - i,
    {
        let s = String::from_str(v[i]);
        proof {
            lemma_strs_push(out@, s);
            assert(all.take(i + 1) =~= all.take(i as int).push(all[i as int]));
        }
        out.push(s);
        i = i + 1;
    }
    assert(all.take(i as int) =~= all);
    out
}

/// A trimmed text neither begins nor ends with white space, and what was cut off in front and behind
/// is white space alone.
pub proof fn law_trimming_cuts_white_space_alone(s: Seq<char>)
    ensures
        exists|a: int, b: int|
            0 <= a <= b <= s.len() && trim(s) == #[trigger] s.subrange(a, b) && (forall|i: int|
                0 <= i < a || b <= i < s.len() ==> is_space(#[trigger] s[i])),
        trim(s).len() > 0 ==> !is_space(trim(s)[0]) && !is_space(trim(s).last()),
{
    let t = trim_start(s);
    lemma_front_cut(s);
    lemma_back_cut(t);
    let a = s.len() - t.len();
    let n = trim_end(t).len() as int;
    assert(s.subrange(a, a + n) =~= trim_end(t));
    assert forall|i: int| 0 <= i < a || a + n <= i < s.len() implies is_space(#[trigger] s[i]) by {
        if i >= a + n {
            assert(s[i] == t[i - a]);
        }
    }
    if n > 0 {
        assert(trim_end(t)[0] == t[0]);
    }
}

proof fn lemma_front_cut(s: Seq<char>)
    ensures
        trim_start(s).len() <= s.len(),
        trim_start(s) == s.skip(s.len() - trim_start(s).len()),
        forall|i: int| 0 <= i < s.len() - trim_start(s).len() ==> is_space(#[trigger] s[i]),
        trim_start(s).len() > 0 ==> !is_space(trim_start(s)[0]),
    decreases s.len(),
{
    if s.len() > 0 && is_space(s[0]) {
        lemma_front_cut(s.skip(1));
        let t = trim_start(s);
        assert(s.skip(1).skip(s.len() - 1 - t.len()) =~= s.skip(s.len() - t.len()));
        assert forall|i: int| 0 <= i < s.len() - t.len() implies is_space(#[trigger] s[i]) by {
            if i > 0 {
                assert(s.skip(1)[i - 1] == s[i]);
            }
        }
    } else {
        assert(s.skip(0) =~= s);
    }
}

proof fn lemma_back_cut(s: Seq<char>)
    ensures
        trim_end(s).len() <= s.len(),
        trim_end(s) == s.take(trim_end(s).len() as int),
        forall|i: int| trim_end(s).len() <= i < s.len() ==> is_space(#[trigger] s[i]),
        trim_end(s).len() > 0 ==> !is_space(trim_end(s).last()),
    decreases s.len(),
{
    if s.len() > 0 && is_space(s.last()) {
        let front = s.drop_last();
        lemma_back_cut(front);
        let t = trim_end(s);
        assert(front.take(t.len() as int) =~= s.take(t.len() as int));
        assert forall|i: int| t.len() <= i < s.len() implies is_space(#[trigger] s[i]) by {
            if i < front.len() {
                assert(front[i] == s[i]);
            }
        }
    } else {
        assert(s.take(s.len() as int) =~= s);
    }
}

/// A line ends at a line feed, or at a carriage return and a line feed, which are no part of it; the
/// last needs neither, and an end of line at the end of the text begins no other.
pub proof fn law_a_line_is_without_its_end(line: Seq<char>, more: Seq<char>)
    requires
        lacks(line, '\n'),
        line.len() > 0,
        line.last() != '\r',
    ensures
        lines(line + seq!['\n'] + more) == seq![line] + lines(more),
        lines(line + seq!['\r', '\n'] + more) == seq![line] + lines(more),
        lines(line) == seq![line],
        lines(line + seq!['\n']) == seq![line],
        lines(seq!['\n'] + more) == seq![Seq::<char>::empty()] + lines(more),
        lines(Seq::empty()).len() == 0,
{
    let feed = seq!['\n'];
    lemma_cut(line, feed, more);
    let s = line + feed + more;
    assert(s.take(line.len() as int) =~= line);
    assert(s.skip(line.len() as int + 1) =~= more);
    let returned = line + seq!['\r'];
    assert forall|i: int| 0 <= i < returned.len() implies returned[i] != '\n' by {
        if i < line.len() {
            assert(returned[i] == line[i]);
        }
    }
    lemma_cut(returned, feed, more);
    let r = line + seq!['\r', '\n'] + more;
    assert(r =~= returned + feed + more);
    assert(r.take(returned.len() as int) =~= returned);
    assert(r.skip(returned.len() as int + 1) =~= more);
    assert(returned.drop_last() =~= line);
    assert(strip_cr(returned) == line);
    lemma_lacking(line, feed, 0);
    let none = Seq::<char>::empty();
    lemma_lacking(none, feed, 0);
    assert(lines(none) =~= Seq::empty());
    lemma_cut(line, feed, none);
    let e = line + feed;
    assert(e =~= line + feed + none);
    assert(e.take(line.len() as int) =~= line);
    assert(e.skip(line.len() as int + 1) =~= none);
    assert(lines(e) =~= seq![line]);
    lemma_cut(none, feed, more);
    let b = feed + more;
    assert(b =~= none + feed + more);
    assert(b.take(0) =~= none);
    assert(b.skip(1) =~= more);
}

/// Putting the pieces of a text together with the pattern between them gives the text back.
pub proof fn law_pieces_make_up_the_text(s: Seq<char>, pat: Seq<char>)
    ensures
        join(split(s, pat), pat) == s,
        replace(s, pat, pat) == s,
        split(s, pat).len() > 0,
    decreases s.len(),
{
    lemma_find(s, pat);
    match find(s, pat) {
        Some(i) if pat.len() > 0 => {
            let rest = s.skip(i + pat.len());
            law_pieces_make_up_the_text(rest, pat);
            lemma_join_front(s.take(i), split(rest, pat), pat);
            assert(s.subrange(i, i + pat.len()) == pat);
            assert(s.take(i) + pat + rest =~= s);
        },
        _ => {
            assert(join(seq![s], pat) == s);
        },
    }
}

proof fn lemma_join_front(a: Seq<char>, ps: Seq<Seq<char>>, sep: Seq<char>)
    requires
        ps.len() > 0,
    ensures
        join(seq![a] + ps, sep) == a + sep + join(ps, sep),
    decreases ps.len(),
{
    let all = seq![a] + ps;
    if ps.len() == 1 {
        assert(all.drop_last() =~= seq![a]);
        assert(join(seq![a], sep) == a);
        assert(all.last() == ps[0]);
    } else {
        lemma_join_front(a, ps.drop_last(), sep);
        assert(all.drop_last() =~= seq![a] + ps.drop_last());
        assert(all.last() == ps.last());
        assert(join(all, sep) =~= a + sep + join(ps, sep));
    }
}

/// The characters of white space are those of Unicode's property: the controls from the tabulator to
/// the carriage return, the space, the next line, the spaces that do not break, and the spaces and
/// separators of general punctuation; no letter, digit or mark of ASCII is one.
pub proof fn law_white_space_is_none_of_ascii_print(c: char)
    ensures
        33 <= c as int <= 126 ==> !is_space(c),
        is_space(' ') && is_space('\t') && is_space('\n') && is_space('\r') && is_space('\x0B')
            && is_space('\x0C'),
        is_space('\u{85}') && is_space('\u{A0}') && is_space('\u{1680}') && is_space('\u{2000}')
            && is_space('\u{200A}') && is_space('\u{2028}') && is_space('\u{2029}') && is_space(
            '\u{202F}',
        ) && is_space('\u{205F}') && is_space('\u{3000}'),
        !is_space('\u{200B}') && !is_space('\u{FEFF}') && !is_space('\0') && !is_space('\x08')
            && !is_space('\x0E'),
        is_digit(c) <==> '0' <= c && c <= '9',
        is_alnum(c) <==> ('0' <= c && c <= '9') || ('A' <= c && c <= 'Z') || ('a' <= c && c <= 'z'),
        is_ident(c) <==> is_alnum(c) || c == '_',
{
}

} // verus!
