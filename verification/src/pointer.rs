//! Driving the pointer: relative motion in steps that the device accepts.

use vstd::prelude::*;

verus! {

/// The largest motion of one step, on either axis.
pub const STEP: i32 = 100;

/// How many full steps push the pointer into the far corner of the screen.
pub const PIN_STEPS: usize = 20;

/// The far corner of the screen, where the pointer is pinned.
pub const CORNER: (i64, i64) = (1279, 799);

/// `d` brought into what one step can move.
pub open spec fn step_of(d: int) -> int {
    if d < -100 {
        -100
    } else if d > 100 {
        100
    } else {
        d
    }
}

pub open spec fn magnitude(d: int) -> nat {
    if d < 0 {
        (-d) as nat
    } else {
        d as nat
    }
}

/// The steps of a motion: the largest possible on each axis until nothing is left on either.
pub open spec fn walk(dx: int, dy: int) -> Seq<(i32, i32)>
    decreases magnitude(dx) + magnitude(dy),
{
    if dx == 0 && dy == 0 {
        Seq::empty()
    } else {
        seq![(step_of(dx) as i32, step_of(dy) as i32)] + walk(dx - step_of(dx), dy - step_of(dy))
    }
}

/// The motion that steps add up to.
pub open spec fn total(steps: Seq<(i32, i32)>) -> (int, int)
    decreases steps.len(),
{
    if steps.len() == 0 {
        (0, 0)
    } else {
        let t = total(steps.skip(1));
        (steps[0].0 + t.0, steps[0].1 + t.1)
    }
}

/// The last step adds to what the others add up to.
pub proof fn lemma_total_last(steps: Seq<(i32, i32)>)
    requires
        steps.len() > 0,
    ensures
        total(steps) == (
            total(steps.drop_last()).0 + steps.last().0,
            total(steps.drop_last()).1 + steps.last().1,
        ),
    decreases steps.len(),
{
    if steps.len() == 1 {
        assert(steps.skip(1) =~= Seq::empty());
        assert(steps.drop_last() =~= Seq::empty());
    } else {
        lemma_total_last(steps.skip(1));
        assert(steps.skip(1).drop_last() =~= steps.drop_last().skip(1));
    }
}

fn clamp(d: i128) -> (r: i32)
    ensures
        r == step_of(d as int),
{
    if d < -100 {
        -STEP
    } else if d > 100 {
        STEP
    } else {
        d as i32
    }
}

/// The steps that take the pointer from `from` to `to`.
pub fn pointer_walk(from: (i64, i64), to: (i64, i64)) -> (r: Vec<(i32, i32)>)
    ensures
        r@ == walk(to.0 - from.0, to.1 - from.1),
{
    let mut dx: i128 = to.0 as i128 - from.0 as i128;
    let mut dy: i128 = to.1 as i128 - from.1 as i128;
    let mut out: Vec<(i32, i32)> = Vec::new();
    let ghost all = walk(dx as int, dy as int);
    while dx != 0 || dy != 0
        invariant
            out@ + walk(dx as int, dy as int) == all,
        decreases magnitude(dx as int) + magnitude(dy as int),
    {
        let sx: i32 = clamp(dx);
        let sy: i32 = clamp(dy);
        let ghost rest = walk(dx - sx, dy - sy);
        assert(out@ + (seq![(sx, sy)] + rest) =~= out@.push((sx, sy)) + rest);
        out.push((sx, sy));
        dx = dx - sx as i128;
        dy = dy - sy as i128;
    }
    assert(out@ + Seq::<(i32, i32)>::empty() =~= out@);
    out
}

/// The steps that pin a pointer of unknown place in the far corner.
pub fn pin_steps() -> (r: Vec<(i32, i32)>)
    ensures
        r@ == Seq::new(PIN_STEPS as nat, |i: int| (STEP, STEP)),
{
    let mut out: Vec<(i32, i32)> = Vec::new();
    let mut i: usize = 0;
    while i < PIN_STEPS
        invariant
            i <= PIN_STEPS,
            out@ == Seq::new(i as nat, |k: int| (STEP, STEP)),
        decreases PIN_STEPS - i,
    {
        out.push((STEP, STEP));
        i = i + 1;
        assert(out@ =~= Seq::new(i as nat, |k: int| (STEP, STEP)));
    }
    out
}

/// The steps of a motion add up to it, and none moves more than the device accepts.
pub proof fn law_walk_arrives(dx: int, dy: int)
    ensures
        total(walk(dx, dy)) == (dx, dy),
        forall|i: int|
            0 <= i < walk(dx, dy).len() ==> {
                let s = #[trigger] walk(dx, dy)[i];
                -100 <= s.0 <= 100 && -100 <= s.1 <= 100
            },
    decreases magnitude(dx) + magnitude(dy),
{
    if dx != 0 || dy != 0 {
        let w = walk(dx, dy);
        let rest = walk(dx - step_of(dx), dy - step_of(dy));
        law_walk_arrives(dx - step_of(dx), dy - step_of(dy));
        assert(w.skip(1) =~= rest);
        assert forall|i: int| 0 <= i < w.len() implies {
            let s = #[trigger] w[i];
            -100 <= s.0 <= 100 && -100 <= s.1 <= 100
        } by {
            if i > 0 {
                assert(w[i] == rest[i - 1]);
            }
        }
    }
}

/// A place on the screen.
pub open spec fn on_screen(p: (int, int)) -> bool {
    0 <= p.0 <= CORNER.0 && 0 <= p.1 <= CORNER.1
}

/// `v` brought into `0..=max`.
pub open spec fn held(v: int, max: int) -> int {
    if v < 0 {
        0
    } else if v > max {
        max
    } else {
        v
    }
}

/// Where steps put a pointer that was at `at`: it stops at the edges of the screen.
pub open spec fn slid(at: (int, int), steps: Seq<(i32, i32)>) -> (int, int)
    decreases steps.len(),
{
    if steps.len() == 0 {
        at
    } else {
        slid(
            (
                held(at.0 + steps[0].0, CORNER.0 as int),
                held(at.1 + steps[0].1, CORNER.1 as int),
            ),
            steps.skip(1),
        )
    }
}

/// A walk between two places on the screen touches no edge, so it arrives.
pub proof fn law_a_walk_on_the_screen_arrives(at: (int, int), to: (int, int))
    requires
        on_screen(at),
        on_screen(to),
    ensures
        slid(at, walk(to.0 - at.0, to.1 - at.1)) == to,
    decreases magnitude(to.0 - at.0) + magnitude(to.1 - at.1),
{
    let dx = to.0 - at.0;
    let dy = to.1 - at.1;
    if dx != 0 || dy != 0 {
        let w = walk(dx, dy);
        let next = (at.0 + step_of(dx), at.1 + step_of(dy));
        assert(w.skip(1) =~= walk(dx - step_of(dx), dy - step_of(dy)));
        law_a_walk_on_the_screen_arrives(next, to);
    }
}

proof fn lemma_pinned(at: (int, int), n: nat)
    requires
        on_screen(at),
    ensures
        slid(at, Seq::new(n, |i: int| (STEP, STEP))) == (
            held(at.0 + n * 100, CORNER.0 as int),
            held(at.1 + n * 100, CORNER.1 as int),
        ),
    decreases n,
{
    if n > 0 {
        let s = Seq::new(n, |i: int| (STEP, STEP));
        assert(s.skip(1) =~= Seq::new((n - 1) as nat, |i: int| (STEP, STEP)));
        lemma_pinned(
            (held(at.0 + 100, CORNER.0 as int), held(at.1 + 100, CORNER.1 as int)),
            (n - 1) as nat,
        );
    }
}

/// Pinning puts a pointer in the corner from anywhere on the screen.
pub proof fn law_pinning_reaches_the_corner(at: (int, int))
    requires
        on_screen(at),
    ensures
        slid(at, Seq::new(PIN_STEPS as nat, |i: int| (STEP, STEP))) == (
            CORNER.0 as int,
            CORNER.1 as int,
        ),
{
    lemma_pinned(at, PIN_STEPS as nat);
}

} // verus!
