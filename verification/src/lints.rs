//! Line scans of the source: nightly features, and references across the architecture boundary.

use vstd::prelude::*;

use crate::text;

verus! {

/// The code of a line: what stands before a comment.
pub open spec fn code(line: Seq<char>) -> Seq<char> {
    text::split(line, "//"@)[0]
}

/// The line's code asks for a nightly feature.
pub open spec fn asks_for_nightly(line: Seq<char>) -> bool {
    text::contains(code(line), "#![feature("@)
}

/// The line's code names the inside of an architecture.
pub open spec fn names_arch_inside(line: Seq<char>) -> bool {
    text::contains(code(line), "arch::x86_64"@) || text::contains(code(line), "arch::aarch64"@)
}

/// `r` are the lines, counted from one and in order, that `p` holds of.
pub open spec fn are_lines(r: Seq<usize>, ls: Seq<Seq<char>>, p: spec_fn(Seq<char>) -> bool) -> bool {
    &&& forall|i: int, j: int| 0 <= i < j < r.len() ==> r[i] < r[j]
    &&& forall|i: int| 0 <= i < r.len() ==> 1 <= #[trigger] r[i] <= ls.len() && p(ls[r[i] - 1])
    &&& forall|k: int| 0 <= k < ls.len() && p(#[trigger] ls[k]) ==> r.contains((k + 1) as usize)
}

fn code_of(line: &[char]) -> (r: &[char])
    ensures
        r@ == code(line@),
{
    proof {
        reveal_strlit("//");
    }
    let p = text::pieces(line, "//");
    assert(text::views(p@)[0] == p[0]@);
    p[0]
}

/// The lines of a source file that ask for a nightly feature.
pub fn nightly_lines(source: &str) -> (r: Vec<usize>)
    ensures
        are_lines(r@, text::lines(source@), |l: Seq<char>| asks_for_nightly(l)),
{
    let c = text::chars_of(source);
    let ls = text::lines_of(c.as_slice());
    let ghost all = text::lines(source@);
    let mut out: Vec<usize> = Vec::new();
    let mut i: usize = 0;
    assert(text::views(ls@).len() == ls.len());
    while i < ls.len()
        invariant
            i <= ls.len(),
            ls.len() == all.len(),
            all == text::views(ls@),
            forall|a: int, b: int| 0 <= a < b < out@.len() ==> out@[a] < out@[b],
            forall|a: int|
                0 <= a < out@.len() ==> 1 <= #[trigger] out@[a] <= i && asks_for_nightly(
                    all[out@[a] - 1],
                ),
            forall|k: int|
                0 <= k < i && asks_for_nightly(#[trigger] all[k]) ==> out@.contains(
                    (k + 1) as usize,
                ),
        decreases ls.len() - i,
    {
        assert(all[i as int] == ls[i as int]@);
        let ghost was = out@;
        if text::has_str(code_of(ls[i]), "#![feature(") {
            out.push(i + 1);
            assert(out@[was.len() as int] == i + 1);
            assert forall|k: int| 0 <= k < i + 1 && asks_for_nightly(#[trigger] all[k]) implies out@.contains(
                (k + 1) as usize,
            ) by {
                if k < i {
                    let a = choose|a: int| 0 <= a < was.len() && was[a] == (k + 1) as usize;
                    assert(out@[a] == (k + 1) as usize);
                }
            }
        }
        i = i + 1;
    }
    out
}

/// The lines of a source file that name the inside of an architecture.
pub fn arch_lines(source: &str) -> (r: Vec<usize>)
    ensures
        are_lines(r@, text::lines(source@), |l: Seq<char>| names_arch_inside(l)),
{
    let c = text::chars_of(source);
    let ls = text::lines_of(c.as_slice());
    let ghost all = text::lines(source@);
    let mut out: Vec<usize> = Vec::new();
    let mut i: usize = 0;
    assert(text::views(ls@).len() == ls.len());
    while i < ls.len()
        invariant
            i <= ls.len(),
            ls.len() == all.len(),
            all == text::views(ls@),
            forall|a: int, b: int| 0 <= a < b < out@.len() ==> out@[a] < out@[b],
            forall|a: int|
                0 <= a < out@.len() ==> 1 <= #[trigger] out@[a] <= i && names_arch_inside(
                    all[out@[a] - 1],
                ),
            forall|k: int|
                0 <= k < i && names_arch_inside(#[trigger] all[k]) ==> out@.contains(
                    (k + 1) as usize,
                ),
        decreases ls.len() - i,
    {
        assert(all[i as int] == ls[i as int]@);
        let ghost was = out@;
        let line = code_of(ls[i]);
        if text::has_str(line, "arch::x86_64") || text::has_str(line, "arch::aarch64") {
            out.push(i + 1);
            assert(out@[was.len() as int] == i + 1);
            assert forall|k: int| 0 <= k < i + 1 && names_arch_inside(#[trigger] all[k]) implies out@.contains(
                (k + 1) as usize,
            ) by {
                if k < i {
                    let a = choose|a: int| 0 <= a < was.len() && was[a] == (k + 1) as usize;
                    assert(out@[a] == (k + 1) as usize);
                }
            }
        }
        i = i + 1;
    }
    out
}

/// What stands behind a comment's slashes is no code, and what stands before them is: the line is held
/// to the same as without its comment.
pub proof fn law_a_comment_is_no_code(line: Seq<char>, comment: Seq<char>)
    requires
        text::lacks(line, '/'),
    ensures
        asks_for_nightly(line) <==> text::contains(line, "#![feature("@),
        names_arch_inside(line) <==> text::contains(line, "arch::x86_64"@) || text::contains(
            line,
            "arch::aarch64"@,
        ),
        asks_for_nightly(line + "//"@ + comment) <==> asks_for_nightly(line),
        names_arch_inside(line + "//"@ + comment) <==> names_arch_inside(line),
{
    reveal_strlit("//");
    text::lemma_cut(line, "//"@, comment);
    text::lemma_lacking(line, "//"@, 0);
}

} // verus!
