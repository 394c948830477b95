//! The photographs: at which moments of a session the screen is taken, and what leads to each.

use vstd::prelude::*;

use crate::script::ActView;
use crate::script::Script;
use crate::text;

verus! {

/// A moment at which the screen is taken.
#[derive(Debug, Clone, Copy, PartialEq, Eq, Structural)]
pub enum Moment {
    Greeter,
    Desktop,
    Apps,
    Windows,
    Overview,
}

/// The name of a moment.
pub open spec fn moment_name(m: Moment) -> Seq<char> {
    match m {
        Moment::Greeter => "greeter"@,
        Moment::Desktop => "desktop"@,
        Moment::Apps => "apps"@,
        Moment::Windows => "windows"@,
        Moment::Overview => "overview"@,
    }
}

impl Moment {
    /// The name of the moment.
    pub fn name(self) -> (r: &'static str)
        ensures
            r@ == moment_name(self),
    {
        match self {
            Moment::Greeter => "greeter",
            Moment::Desktop => "desktop",
            Moment::Apps => "apps",
            Moment::Windows => "windows",
            Moment::Overview => "overview",
        }
    }

    /// Whether the moment is wanted by one who asks for `what`.
    pub fn is_wanted(self, what: &str) -> (r: bool)
        ensures
            r == is_asked_for(what@, moment_name(self)),
    {
        asked_for(what, self.name())
    }
}

/// One who asks for `what` wants `name`: it is that, or everything.
pub open spec fn is_asked_for(what: Seq<char>, name: Seq<char>) -> bool {
    what == "all"@ || what == name
}

/// Whether one who asks for `what` wants `name`.
pub fn asked_for(what: &str, name: &str) -> (r: bool)
    ensures
        r == is_asked_for(what@, name@),
{
    let c = text::chars_of(what);
    text::equals(c.as_slice(), "all") || text::equals(c.as_slice(), name)
}

/// Whether there is anything to take for one who asks for `what`: everything, or one of the names.
pub fn is_known(what: &str, names: &Vec<&str>) -> (r: bool)
    ensures
        r == (what@ == "all"@ || exists|i: int| 0 <= i < names@.len() && #[trigger] names@[i]@ == what@),
{
    let c = text::chars_of(what);
    if text::equals(c.as_slice(), "all") {
        return true;
    }
    let mut i: usize = 0;
    while i < names.len()
        invariant
            i <= names.len(),
            c@ == what@,
            forall|k: int| 0 <= k < i ==> #[trigger] names@[k]@ != what@,
        decreases names.len() - i,
    {
        if text::equals(c.as_slice(), names[i]) {
            return true;
        }
        i = i + 1;
    }
    false
}

/// The keys of a program's name, one after another.
pub open spec fn keys(s: Seq<char>) -> Seq<ActView>
    decreases s.len(),
{
    if s.len() == 0 {
        Seq::empty()
    } else {
        keys(s.drop_last()).push(ActView::Press(seq![s.last()]))
    }
}

/// The acts that launch a program from the applications modal, until its window is placed.
pub open spec fn launch_acts(program: Seq<char>) -> Seq<ActView> {
    keys(program).push(ActView::Press("ret"@)).push(
        ActView::Expect("desktop-shell: launched "@ + program + " into its own namespace"@),
    ).push(ActView::Expect("desktop-shell: applications modal closed"@)).push(
        ActView::Expect("desktop-shell: placed window "@),
    )
}

/// The acts that launch a program from the applications modal.
pub fn launch_from_modal(program: &str) -> (r: Script)
    ensures
        r@ == launch_acts(program@),
{
    let c = text::chars_of(program);
    let mut o = Script::new();
    let mut i: usize = 0;
    while i < c.len()
        invariant
            i <= c.len(),
            c@ == program@,
            o@ == keys(program@.take(i as int)),
        decreases c.len() - i,
    {
        assert(program@.take(i + 1).drop_last() =~= program@.take(i as int));
        let mut k = String::new();
        k.push(c[i]);
        assert(k@ =~= seq![program@[i as int]]);
        o.press(k.as_str());
        i = i + 1;
    }
    assert(program@.take(i as int) =~= program@);
    o.press("ret");
    let mut s = String::from_str("desktop-shell: launched ");
    s.append(program);
    s.append(" into its own namespace");
    o.expect(s.as_str());
    o.expect("desktop-shell: applications modal closed");
    o.expect("desktop-shell: placed window ");
    o
}

/// What leads to the greeter.
#[verifier::opaque]
pub open spec fn greeter_acts() -> Seq<ActView> {
    seq![
        ActView::Expect("desktop-session-mgr: greeter presented"@),
        ActView::MoveTo(640, 400),
    ]
}

pub fn greeter_script() -> (r: Script)
    ensures
        r@ == greeter_acts(),
{
    reveal(greeter_acts);
    let mut o = Script::new();
    o.expect("desktop-session-mgr: greeter presented");
    o.move_to(640, 400);
    o
}

/// What leads from the greeter to the desktop.
#[verifier::opaque]
pub open spec fn desktop_acts() -> Seq<ActView> {
    seq![
        ActView::Greeter("alice"@),
        ActView::Press("tab"@),
        ActView::Greeter("correct horse battery staple"@),
        ActView::Press("ret"@),
        ActView::Expect("desktop-shell: up (graphical session leader)"@),
        ActView::Expect("desktop-shell: clock "@),
        ActView::Expect("desktop-shell: top bar presented, window "@),
        ActView::Expect("desktop-shell: bottom bar placed at 0,776"@),
    ]
}

pub fn desktop_script() -> (r: Script)
    ensures
        r@ == desktop_acts(),
{
    reveal(desktop_acts);
    let mut o = Script::new();
    o.greeter("alice");
    o.press("tab");
    o.greeter("correct horse battery staple");
    o.press("ret");
    o.expect("desktop-shell: up (graphical session leader)");
    o.expect("desktop-shell: clock ");
    o.expect("desktop-shell: top bar presented, window ");
    o.expect("desktop-shell: bottom bar placed at 0,776");
    o
}

/// What leads from the desktop to the applications modal.
#[verifier::opaque]
pub open spec fn apps_acts() -> Seq<ActView> {
    seq![
        ActView::Click(60, 12),
        ActView::Expect("desktop-shell: applications modal open"@),
    ]
}

pub fn apps_script() -> (r: Script)
    ensures
        r@ == apps_acts(),
{
    reveal(apps_acts);
    let mut o = Script::new();
    o.click(60, 12);
    o.expect("desktop-shell: applications modal open");
    o
}

/// What leads from the first launched program to the modal again.
#[verifier::opaque]
pub open spec fn second_modal_acts() -> Seq<ActView> {
    seq![
        ActView::Press("esc"@),
        ActView::Skip,
        ActView::Click(60, 12),
        ActView::Expect("desktop-shell: applications modal open"@),
        ActView::Settle,
    ]
}

pub fn second_modal_script() -> (r: Script)
    ensures
        r@ == second_modal_acts(),
{
    reveal(second_modal_acts);
    let mut o = Script::new();
    o.press("esc");
    o.skip();
    o.click(60, 12);
    o.expect("desktop-shell: applications modal open");
    o.settle();
    o
}

/// What leads from the second launched program to the windows.
#[verifier::opaque]
pub open spec fn windows_acts() -> Seq<ActView> {
    seq![
        ActView::MoveTo(900, 500),
    ]
}

pub fn windows_script() -> (r: Script)
    ensures
        r@ == windows_acts(),
{
    reveal(windows_acts);
    let mut o = Script::new();
    o.move_to(900, 500);
    o
}

/// What leads from the windows to the overview.
#[verifier::opaque]
pub open spec fn overview_acts() -> Seq<ActView> {
    seq![
        ActView::MoveTo(1200, 788),
        ActView::Button("left"@, true),
        ActView::Button("left"@, false),
        ActView::Expect("desktop-shell: overview open, window "@),
        ActView::At(1200, 788),
    ]
}

pub fn overview_script() -> (r: Script)
    ensures
        r@ == overview_acts(),
{
    reveal(overview_acts);
    let mut o = Script::new();
    o.move_to(1200, 788);
    o.button("left", true);
    o.button("left", false);
    o.expect("desktop-shell: overview open, window ");
    o.at(1200, 788);
    o
}

/// A program is launched by typing its name key by key and confirming it, and its window is waited for
/// under that name.
pub proof fn law_a_program_is_launched_by_its_name(program: Seq<char>)
    ensures
        ({
            let acts = launch_acts(program);
            let n = program.len() as int;
            &&& acts.len() == n + 4
            &&& forall|i: int| 0 <= i < n ==> acts[i] == ActView::Press(seq![#[trigger] program[i]])
            &&& acts[n] == ActView::Press("ret"@)
            &&& acts[n + 1] == ActView::Expect(
                "desktop-shell: launched "@ + program + " into its own namespace"@,
            )
            &&& acts[n + 3] == ActView::Expect("desktop-shell: placed window "@)
        }),
{
    lemma_keys(program);
    let acts = launch_acts(program);
    assert forall|i: int| 0 <= i < program.len() implies acts[i] == ActView::Press(
        seq![#[trigger] program[i]],
    ) by {
        assert(acts[i] == keys(program)[i]);
    }
}

proof fn lemma_keys(s: Seq<char>)
    ensures
        keys(s).len() == s.len(),
        forall|i: int| 0 <= i < s.len() ==> keys(s)[i] == ActView::Press(seq![#[trigger] s[i]]),
    decreases s.len(),
{
    if s.len() > 0 {
        let front = s.drop_last();
        lemma_keys(front);
        assert forall|i: int| 0 <= i < s.len() implies keys(s)[i] == ActView::Press(
            seq![#[trigger] s[i]],
        ) by {
            if i < front.len() {
                assert(front[i] == s[i]);
                assert(keys(s)[i] == keys(front)[i]);
            }
        }
    }
}

/// Everything that is asked for under one word is every moment, and a moment's own name asks for it.
pub proof fn law_a_moment_is_asked_for_by_name(m: Moment)
    ensures
        is_asked_for("all"@, moment_name(m)),
        is_asked_for(moment_name(m), moment_name(m)),
        forall|what: Seq<char>|
            what != "all"@ && what != moment_name(m) ==> !#[trigger] is_asked_for(what, moment_name(m)),
{
}

} // verus!
