//! The input gate: what is injected at the machine's keyboard and mouse reaches the programs that it is
//! meant for, and no other.

use vstd::prelude::*;

use crate::script;
use crate::script::ActView;
use crate::script::Script;

verus! {

/// The first acts: the client is made to stop reading.
#[verifier::opaque]
pub open spec fn stall_acts() -> Seq<ActView> {
    seq![
        ActView::Expect("compositor: input connected"@),
        ActView::Expect("input-testclient: listening"@),
        ActView::Expect("ui-testclient: PASSED"@),
        ActView::Press("f2"@),
        ActView::Expect("input-testclient: input stalled"@),
    ]
}

pub fn stall_script() -> (r: Script)
    ensures
        r@ == stall_acts(),
{
    reveal(stall_acts);
    let mut o = Script::new();
    o.expect("compositor: input connected");
    o.expect("input-testclient: listening");
    o.expect("ui-testclient: PASSED");
    o.press("f2");
    o.expect("input-testclient: input stalled");
    o
}

/// A motion and a pause, so many times.
pub open spec fn paced(n: nat, dx: int, dy: int, ms: int) -> Seq<ActView>
    decreases n,
{
    if n == 0 {
        Seq::empty()
    } else {
        paced((n - 1) as nat, dx, dy, ms).push(ActView::Motion(dx, dy)).push(ActView::Sleep(ms))
    }
}

/// How many motions are injected while the client does not read.
pub const BURST: usize = 30;

/// The acts of the burst: the motions, and a wait for what they added up to.
pub open spec fn burst_acts() -> Seq<ActView> {
    paced(BURST as nat, 7, 3, 25).push(ActView::Expect("input-testclient: motion sum "@))
}

/// The acts of the burst.
pub fn burst_script() -> (r: Script)
    ensures
        r@ == burst_acts(),
{
    let mut o = Script::new();
    let mut i: usize = 0;
    while i < BURST
        invariant
            i <= BURST,
            o@ == paced(i as nat, 7, 3, 25),
        decreases BURST - i,
    {
        o.motion(7, 3);
        o.sleep(25);
        i = i + 1;
    }
    o.expect("input-testclient: motion sum ");
    o
}

/// The acts once the burst arrived: a key, a motion and a button reach the raw device, and then the
/// focused window.
#[verifier::opaque]
pub open spec fn events_acts() -> Seq<ActView> {
    (seq![
        ActView::Key("a"@, true),
        ActView::Expect("input-testclient: ev kind=1 code=30 value=1"@),
        ActView::Key("a"@, false),
        ActView::Expect("input-testclient: ev kind=1 code=30 value=0"@),
        ActView::Motion(5, 3),
        ActView::Expect("input-testclient: ev kind=2 code=0 value=5"@),
        ActView::Expect("input-testclient: ev kind=2 code=1 value=3"@),
        ActView::Button("left"@, true),
        ActView::Expect("input-testclient: ev kind=1 code=272 value=1"@),
        ActView::Button("left"@, false),
        ActView::Expect("input-testclient: window ready"@),
    ] + script::repeated(12, ActView::Motion(-120, -120))).push(
        ActView::Expect("input-testclient: first win event=focus"@),
    ).push(
        ActView::Expect("input-testclient: win focus has=1"@),
    ).push(
        ActView::Key("b"@, true),
    ).push(
        ActView::Expect("input-testclient: win key code=48 down=1"@),
    ).push(
        ActView::Expect("input-testclient: widget key code=48 down=1"@),
    ).push(
        ActView::Expect("input-testclient: win repeat code=48"@),
    ).push(
        ActView::Key("b"@, false),
    ).push(
        ActView::Expect("input-testclient: win key code=48 down=0"@),
    )
}

pub fn events_script() -> (r: Script)
    ensures
        r@ == events_acts(),
{
    reveal(events_acts);
    let mut o = Script::new();
    o.key("a", true);
    o.expect("input-testclient: ev kind=1 code=30 value=1");
    o.key("a", false);
    o.expect("input-testclient: ev kind=1 code=30 value=0");
    o.motion(5, 3);
    o.expect("input-testclient: ev kind=2 code=0 value=5");
    o.expect("input-testclient: ev kind=2 code=1 value=3");
    o.button("left", true);
    o.expect("input-testclient: ev kind=1 code=272 value=1");
    o.button("left", false);
    o.expect("input-testclient: window ready");
    o.motions(12, -120, -120);
    o.expect("input-testclient: first win event=focus");
    o.expect("input-testclient: win focus has=1");
    o.key("b", true);
    o.expect("input-testclient: win key code=48 down=1");
    o.expect("input-testclient: widget key code=48 down=1");
    o.expect("input-testclient: win repeat code=48");
    o.key("b", false);
    o.expect("input-testclient: win key code=48 down=0");
    o
}

/// The last acts: registered chords fire, a click reaches the window, and a key outlives a flood of
/// motions.
#[verifier::opaque]
pub open spec fn chords_acts() -> Seq<ActView> {
    (seq![
        ActView::Key("meta_l"@, true),
        ActView::Key("f1"@, true),
        ActView::Sleep(700),
        ActView::Key("f1"@, false),
        ActView::Key("meta_l"@, false),
        ActView::Expect("ui-testclient: hotkey fired -> desktop 2"@),
        ActView::Key("meta_l"@, true),
        ActView::Key("f1"@, true),
        ActView::Sleep(700),
        ActView::Key("f1"@, false),
        ActView::Key("meta_l"@, false),
        ActView::Expect("ui-testclient: hotkey fired -> desktop 1"@),
        ActView::Key("meta_l"@, true),
        ActView::Key("spc"@, true),
        ActView::Sleep(700),
        ActView::Key("spc"@, false),
        ActView::Key("meta_l"@, false),
        ActView::Expect("ui-testclient: quiet chord fired"@),
        ActView::Button("left"@, true),
        ActView::Expect("input-testclient: win ptr kind=1 btn=272 buttons=1"@),
        ActView::Expect("input-testclient: widget ptr kind=1"@),
        ActView::Button("left"@, false),
        ActView::Expect("input-testclient: stalling"@),
    ] + script::repeated(40, ActView::Motion(3, 3))).push(
        ActView::Key("c"@, true),
    ).push(
        ActView::Expect("input-testclient: late key code=46"@),
    ).push(
        ActView::Expect("input-testclient: PASSED"@),
    )
}

pub fn chords_script() -> (r: Script)
    ensures
        r@ == chords_acts(),
{
    reveal(chords_acts);
    let mut o = Script::new();
    o.key("meta_l", true);
    o.key("f1", true);
    o.sleep(700);
    o.key("f1", false);
    o.key("meta_l", false);
    o.expect("ui-testclient: hotkey fired -> desktop 2");
    o.key("meta_l", true);
    o.key("f1", true);
    o.sleep(700);
    o.key("f1", false);
    o.key("meta_l", false);
    o.expect("ui-testclient: hotkey fired -> desktop 1");
    o.key("meta_l", true);
    o.key("spc", true);
    o.sleep(700);
    o.key("spc", false);
    o.key("meta_l", false);
    o.expect("ui-testclient: quiet chord fired");
    o.button("left", true);
    o.expect("input-testclient: win ptr kind=1 btn=272 buttons=1");
    o.expect("input-testclient: widget ptr kind=1");
    o.button("left", false);
    o.expect("input-testclient: stalling");
    o.motions(40, 3, 3);
    o.key("c", true);
    o.expect("input-testclient: late key code=46");
    o.expect("input-testclient: PASSED");
    o
}

/// The burst's motions are thirty and paced, and add up to what the client has to have summed.
pub proof fn law_the_burst_adds_up(n: nat, dx: int, dy: int, ms: int)
    ensures
        script::moved((0, 0), paced(n, dx, dy, ms)) == (n * dx, n * dy),
        paced(n, dx, dy, ms).len() == 2 * n,
        script::moved((0, 0), burst_acts()) == (210int, 90int),
        burst_acts().len() == 61,
    decreases n,
{
    lemma_paced(n, dx, dy, ms);
    lemma_paced(30, 7, 3, 25);
    assert(burst_acts().drop_last() =~= paced(30, 7, 3, 25));
}

proof fn lemma_paced(n: nat, dx: int, dy: int, ms: int)
    ensures
        script::moved((0, 0), paced(n, dx, dy, ms)) == (n * dx, n * dy),
        paced(n, dx, dy, ms).len() == 2 * n,
    decreases n,
{
    reveal_with_fuel(script::moved, 3);
    if n == 0 {
        assert(0 * dx == 0 && 0 * dy == 0);
    } else {
        let m = (n - 1) as nat;
        lemma_paced(m, dx, dy, ms);
        let front = paced(m, dx, dy, ms);
        let all = paced(n, dx, dy, ms);
        assert(all.drop_last() =~= front.push(ActView::Motion(dx, dy)));
        assert(all.drop_last().drop_last() =~= front);
        assert(n * dx == m * dx + dx) by (nonlinear_arith)
            requires
                n == m + 1,
        ;
        assert(n * dy == m * dy + dy) by (nonlinear_arith)
            requires
                n == m + 1,
        ;
    }
}

} // verus!
