//! Scripts: what is done to a guest, and what is waited for, one act after another. A script is
//! made here and carried out by whoever holds the machine.

use vstd::prelude::*;

use crate::number;
use crate::pointer;
use crate::qmp;
use crate::text;

verus! {

/// One act.
#[derive(Debug)]
pub enum Act {
    /// Wait until the guest prints this.
    Expect(String),
    /// Wait until the guest has printed both, in either order.
    ExpectBoth(String, String),
    /// Type a line at the guest's console.
    Send(String),
    /// Type these characters at the guest's console, as they are.
    Raw(String),
    /// Take everything printed so far as seen.
    Skip,
    /// Press or release a key.
    Key(String, bool),
    /// Press and release a key.
    Press(String),
    /// Press and release a key while the command key is held, and the shift key where asked.
    Chord(bool, String),
    /// Press and release a key while the control key is held.
    Control(String),
    /// Type at the greeter, and wait for each character to be drawn.
    Greeter(String),
    /// Type into the applications modal, and wait for each character to be listed.
    Modal(String),
    /// Type a line at a terminal, with a pause before each key.
    Terminal(String),
    /// Press or release a mouse button.
    Button(String, bool),
    /// Move the pointer by so much.
    Motion(i32, i32),
    /// Move the pointer to this place.
    MoveTo(i64, i64),
    /// Take the pointer to be at this place.
    At(i64, i64),
    /// Take the pointer to be nowhere known.
    Lost,
    /// Click at this place, and see that the click lands there.
    Click(i64, i64),
    /// Click at this place, and then with the middle button.
    MiddleClick(i64, i64),
    /// Wait until the screen stops changing.
    Settle,
    /// Wait so many milliseconds.
    Sleep(u64),
    /// Tell the operator.
    Say(String),
}

/// An act, over what its strings hold.
pub enum ActView {
    Expect(Seq<char>),
    ExpectBoth(Seq<char>, Seq<char>),
    Send(Seq<char>),
    Raw(Seq<char>),
    Skip,
    Key(Seq<char>, bool),
    Press(Seq<char>),
    Chord(bool, Seq<char>),
    Control(Seq<char>),
    Greeter(Seq<char>),
    Modal(Seq<char>),
    Terminal(Seq<char>),
    Button(Seq<char>, bool),
    Motion(int, int),
    MoveTo(int, int),
    At(int, int),
    Lost,
    Click(int, int),
    MiddleClick(int, int),
    Settle,
    Sleep(int),
    Say(Seq<char>),
}

impl View for Act {
    type V = ActView;

    open spec fn view(&self) -> ActView {
        match *self {
            Act::Expect(s) => ActView::Expect(s@),
            Act::ExpectBoth(s, t) => ActView::ExpectBoth(s@, t@),
            Act::Send(s) => ActView::Send(s@),
            Act::Raw(s) => ActView::Raw(s@),
            Act::Skip => ActView::Skip,
            Act::Key(s, d) => ActView::Key(s@, d),
            Act::Press(s) => ActView::Press(s@),
            Act::Chord(f, s) => ActView::Chord(f, s@),
            Act::Control(s) => ActView::Control(s@),
            Act::Greeter(s) => ActView::Greeter(s@),
            Act::Modal(s) => ActView::Modal(s@),
            Act::Terminal(s) => ActView::Terminal(s@),
            Act::Button(s, d) => ActView::Button(s@, d),
            Act::Motion(x, y) => ActView::Motion(x as int, y as int),
            Act::MoveTo(x, y) => ActView::MoveTo(x as int, y as int),
            Act::At(x, y) => ActView::At(x as int, y as int),
            Act::Lost => ActView::Lost,
            Act::Click(x, y) => ActView::Click(x as int, y as int),
            Act::MiddleClick(x, y) => ActView::MiddleClick(x as int, y as int),
            Act::Settle => ActView::Settle,
            Act::Sleep(n) => ActView::Sleep(n as int),
            Act::Say(s) => ActView::Say(s@),
        }
    }
}

/// The same act so many times.
pub open spec fn repeated(n: nat, a: ActView) -> Seq<ActView> {
    Seq::new(n, |i: int| a)
}

/// Acts, one after another.
#[derive(Debug)]
pub struct Script {
    acts: Vec<Act>,
}

/// What the acts hold.
pub open spec fn views(v: Seq<Act>) -> Seq<ActView> {
    v.map_values(|a: Act| a@)
}

impl View for Script {
    type V = Seq<ActView>;

    closed spec fn view(&self) -> Seq<ActView> {
        views(self.acts@)
    }
}

impl Script {
    /// A script without acts.
    pub fn new() -> (r: Self)
        ensures
            r@ == Seq::<ActView>::empty(),
    {
        let r = Script { acts: Vec::new() };
        assert(r@ =~= Seq::empty());
        r
    }

    /// Adds an act at the end.
    pub fn add(&mut self, a: Act)
        ensures
            final(self)@ == old(self)@.push(a@),
    {
        let ghost was = self.acts@;
        self.acts.push(a);
        assert(views(self.acts@) =~= views(was).push(a@));
    }

    /// How many acts there are.
    pub fn len(&self) -> (r: usize)
        ensures
            r == self@.len(),
    {
        self.acts.len()
    }

    /// The act at a place.
    pub fn act(&self, i: usize) -> (r: &Act)
        requires
            i < self@.len(),
        ensures
            r@ == self@[i as int],
    {
        &self.acts[i]
    }

    /// Waits until the guest prints `s`.
    pub fn expect(&mut self, s: &str)
        ensures
            final(self)@ == old(self)@.push(ActView::Expect(s@)),
    {
        self.add(Act::Expect(String::from_str(s)));
    }

    /// Types a line at the guest's console.
    pub fn send(&mut self, s: &str)
        ensures
            final(self)@ == old(self)@.push(ActView::Send(s@)),
    {
        self.add(Act::Send(String::from_str(s)));
    }

    /// Types characters at the guest's console.
    pub fn raw(&mut self, s: &str)
        ensures
            final(self)@ == old(self)@.push(ActView::Raw(s@)),
    {
        self.add(Act::Raw(String::from_str(s)));
    }

    /// Takes everything printed so far as seen.
    pub fn skip(&mut self)
        ensures
            final(self)@ == old(self)@.push(ActView::Skip),
    {
        self.add(Act::Skip);
    }

    /// Presses or releases a key.
    pub fn key(&mut self, s: &str, down: bool)
        ensures
            final(self)@ == old(self)@.push(ActView::Key(s@, down)),
    {
        self.add(Act::Key(String::from_str(s), down));
    }

    /// Presses and releases a key.
    pub fn press(&mut self, s: &str)
        ensures
            final(self)@ == old(self)@.push(ActView::Press(s@)),
    {
        self.add(Act::Press(String::from_str(s)));
    }

    /// Presses and releases a key while the command key is held.
    pub fn chord(&mut self, shift: bool, s: &str)
        ensures
            final(self)@ == old(self)@.push(ActView::Chord(shift, s@)),
    {
        self.add(Act::Chord(shift, String::from_str(s)));
    }

    /// Presses and releases a key while the control key is held.
    pub fn control(&mut self, s: &str)
        ensures
            final(self)@ == old(self)@.push(ActView::Control(s@)),
    {
        self.add(Act::Control(String::from_str(s)));
    }

    /// Types at the greeter.
    pub fn greeter(&mut self, s: &str)
        ensures
            final(self)@ == old(self)@.push(ActView::Greeter(s@)),
    {
        self.add(Act::Greeter(String::from_str(s)));
    }

    /// Types into the applications modal.
    pub fn modal(&mut self, s: &str)
        ensures
            final(self)@ == old(self)@.push(ActView::Modal(s@)),
    {
        self.add(Act::Modal(String::from_str(s)));
    }

    /// Types a line at a terminal.
    pub fn terminal(&mut self, s: &str)
        ensures
            final(self)@ == old(self)@.push(ActView::Terminal(s@)),
    {
        self.add(Act::Terminal(String::from_str(s)));
    }

    /// Presses or releases a mouse button.
    pub fn button(&mut self, s: &str, down: bool)
        ensures
            final(self)@ == old(self)@.push(ActView::Button(s@, down)),
    {
        self.add(Act::Button(String::from_str(s), down));
    }

    /// Moves the pointer by so much.
    pub fn motion(&mut self, dx: i32, dy: i32)
        ensures
            final(self)@ == old(self)@.push(ActView::Motion(dx as int, dy as int)),
    {
        self.add(Act::Motion(dx, dy));
    }

    /// Moves the pointer by so much, `n` times.
    pub fn motions(&mut self, n: usize, dx: i32, dy: i32)
        ensures
            final(self)@ == old(self)@ + repeated(
                n as nat,
                ActView::Motion(dx as int, dy as int),
            ),
    {
        let ghost was = self@;
        let ghost one = ActView::Motion(dx as int, dy as int);
        let mut i: usize = 0;
        assert(self@ =~= was + repeated(0, one));
        while i < n
            invariant
                i <= n,
                one == ActView::Motion(dx as int, dy as int),
                self@ == was + repeated(i as nat, one),
            decreases n - i,
        {
            self.motion(dx, dy);
            i = i + 1;
            assert(self@ =~= was + repeated(i as nat, one));
        }
    }

    /// Moves the pointer to a place.
    pub fn move_to(&mut self, x: i64, y: i64)
        ensures
            final(self)@ == old(self)@.push(ActView::MoveTo(x as int, y as int)),
    {
        self.add(Act::MoveTo(x, y));
    }

    /// Takes the pointer to be at a place.
    pub fn at(&mut self, x: i64, y: i64)
        ensures
            final(self)@ == old(self)@.push(ActView::At(x as int, y as int)),
    {
        self.add(Act::At(x, y));
    }

    /// Takes the pointer to be nowhere known.
    pub fn lost(&mut self)
        ensures
            final(self)@ == old(self)@.push(ActView::Lost),
    {
        self.add(Act::Lost);
    }

    /// Clicks at a place.
    pub fn click(&mut self, x: i64, y: i64)
        ensures
            final(self)@ == old(self)@.push(ActView::Click(x as int, y as int)),
    {
        self.add(Act::Click(x, y));
    }

    /// Clicks at a place, and then with the middle button.
    pub fn middle_click(&mut self, x: i64, y: i64)
        ensures
            final(self)@ == old(self)@.push(ActView::MiddleClick(x as int, y as int)),
    {
        self.add(Act::MiddleClick(x, y));
    }

    /// Waits until the screen stops changing.
    pub fn settle(&mut self)
        ensures
            final(self)@ == old(self)@.push(ActView::Settle),
    {
        self.add(Act::Settle);
    }

    /// Waits so many milliseconds.
    pub fn sleep(&mut self, ms: u64)
        ensures
            final(self)@ == old(self)@.push(ActView::Sleep(ms as int)),
    {
        self.add(Act::Sleep(ms));
    }

    /// Tells the operator.
    pub fn say(&mut self, s: &str)
        ensures
            final(self)@ == old(self)@.push(ActView::Say(s@)),
    {
        self.add(Act::Say(String::from_str(s)));
    }
}

/// `s` with `t` behind it.
pub fn then_text(s: String, t: &str) -> (r: String)
    ensures
        r@ == s@ + t@,
{
    let mut s = s;
    s.append(t);
    s
}

/// `s` with a number behind it.
pub fn then_number(s: String, n: i64) -> (r: String)
    ensures
        r@ == s@ + number::written(n as int),
{
    let ghost was = s@;
    let mut s = s;
    let m: u64 = if n < 0 {
        (-(n as i128)) as u64
    } else {
        n as u64
    };
    if n < 0 {
        s.push('-');
    }
    let d = number::write_number(m, 10);
    let t = text::string_of(d.as_slice());
    s.append(t.as_str());
    assert(s@ =~= was + number::written(n as int));
    s
}

/// The keys that type `text` at the greeter, each followed by a wait for it to be drawn; none from
/// the first character on that has no key.
pub open spec fn greeter_acts(s: Seq<char>) -> Option<Seq<ActView>>
    decreases s.len(),
{
    if s.len() == 0 {
        Some(Seq::empty())
    } else {
        match (greeter_acts(s.drop_last()), qmp::greeter_key_of(s.last())) {
            (Some(front), Some(key)) => Some(
                front.push(ActView::Press(key)).push(
                    ActView::Expect("desktop-session-mgr: greeter redraw "@),
                ),
            ),
            _ => None,
        }
    }
}

proof fn lemma_greeter_prefix(s: Seq<char>, k: int)
    requires
        0 <= k <= s.len(),
        greeter_acts(s.take(k)) is None,
    ensures
        greeter_acts(s) is None,
    decreases s.len(),
{
    if k < s.len() {
        assert(s.drop_last().take(k) =~= s.take(k));
        lemma_greeter_prefix(s.drop_last(), k);
    } else {
        assert(s.take(k) =~= s);
    }
}

/// The acts that type `text` at the greeter, or the first character that has no key there.
pub fn type_at_greeter(s: &str) -> (r: Result<Script, char>)
    ensures
        match r {
            Ok(v) => greeter_acts(s@) == Some(v@),
            Err(c) => greeter_acts(s@) is None && exists|i: int|
                0 <= i < s@.len() && #[trigger] s@[i] == c && qmp::greeter_key_of(c) is None
                    && forall|k: int|
                    0 <= k < i ==> qmp::greeter_key_of(#[trigger] s@[k]) is Some,
        },
{
    let c = text::chars_of(s);
    let mut out = Script::new();
    let mut i: usize = 0;
    while i < c.len()
        invariant
            i <= c.len(),
            c@ == s@,
            greeter_acts(s@.take(i as int)) == Some(out@),
            forall|k: int| 0 <= k < i ==> qmp::greeter_key_of(#[trigger] s@[k]) is Some,
        decreases c.len() - i,
    {
        assert(s@.take(i + 1).drop_last() =~= s@.take(i as int));
        match qmp::greeter_key(c[i]) {
            Some(k) => {
                out.press(k.as_str());
                out.expect("desktop-session-mgr: greeter redraw ");
            },
            None => {
                proof {
                    lemma_greeter_prefix(s@, i + 1);
                    assert(s@[i as int] == c@[i as int]);
                }
                return Err(c[i]);
            },
        }
        i = i + 1;
    }
    assert(s@.take(i as int) =~= s@);
    Ok(out)
}

/// The keys that type `s` into the applications modal, each followed by a wait for the list.
pub open spec fn modal_acts(s: Seq<char>) -> Seq<ActView>
    decreases s.len(),
{
    if s.len() == 0 {
        Seq::empty()
    } else {
        modal_acts(s.drop_last()).push(ActView::Press(seq![s.last()])).push(
            ActView::Expect("desktop-shell: applications modal listing "@),
        )
    }
}

fn one(c: char) -> (r: String)
    ensures
        r@ == seq![c],
{
    let mut s = String::new();
    s.push(c);
    assert(s@ =~= seq![c]);
    s
}

/// The acts that type `s` into the applications modal.
pub fn type_into_modal(s: &str) -> (r: Script)
    ensures
        r@ == modal_acts(s@),
{
    let c = text::chars_of(s);
    let mut out = Script::new();
    let mut i: usize = 0;
    while i < c.len()
        invariant
            i <= c.len(),
            c@ == s@,
            out@ == modal_acts(s@.take(i as int)),
        decreases c.len() - i,
    {
        assert(s@.take(i + 1).drop_last() =~= s@.take(i as int));
        let k = one(c[i]);
        out.press(k.as_str());
        out.expect("desktop-shell: applications modal listing ");
        i = i + 1;
    }
    assert(s@.take(i as int) =~= s@);
    out
}

/// The pause before each key at a terminal, in milliseconds.
pub const PER_KEY: u64 = 40;

/// The key that types `c` at a terminal.
pub open spec fn terminal_key(c: char) -> Seq<char> {
    if c == ' ' {
        "spc"@
    } else {
        seq![c]
    }
}

/// The keys that type `s` at a terminal, with a pause before each.
pub open spec fn terminal_keys(s: Seq<char>) -> Seq<ActView>
    decreases s.len(),
{
    if s.len() == 0 {
        Seq::empty()
    } else {
        terminal_keys(s.drop_last()).push(ActView::Sleep(PER_KEY as int)).push(
            ActView::Press(terminal_key(s.last())),
        )
    }
}

/// The acts that type a line at a terminal: a new line first, so that nothing typed before is part
/// of it.
pub open spec fn terminal_acts(s: Seq<char>) -> Seq<ActView> {
    seq![ActView::Sleep(PER_KEY as int), ActView::Press("ret"@)] + terminal_keys(s) + seq![
        ActView::Sleep(PER_KEY as int),
        ActView::Press("ret"@),
    ]
}

/// The acts that type a line at a terminal.
pub fn type_at_terminal(s: &str) -> (r: Script)
    ensures
        r@ == terminal_acts(s@),
{
    let c = text::chars_of(s);
    let mut out = Script::new();
    out.sleep(PER_KEY);
    out.press("ret");
    let ghost head = seq![ActView::Sleep(PER_KEY as int), ActView::Press("ret"@)];
    let mut i: usize = 0;
    assert(out@ =~= head + terminal_keys(s@.take(0)));
    while i < c.len()
        invariant
            i <= c.len(),
            c@ == s@,
            out@ == head + terminal_keys(s@.take(i as int)),
        decreases c.len() - i,
    {
        assert(s@.take(i + 1).drop_last() =~= s@.take(i as int));
        let k = qmp::terminal_key(c[i]);
        out.sleep(PER_KEY);
        out.press(k.as_str());
        i = i + 1;
        assert(out@ =~= head + terminal_keys(s@.take(i as int)));
    }
    assert(s@.take(i as int) =~= s@);
    out.sleep(PER_KEY);
    out.press("ret");
    assert(out@ =~= terminal_acts(s@));
    out
}

/// The key events of a press.
pub open spec fn press_acts(code: Seq<char>) -> Seq<ActView> {
    seq![ActView::Key(code, true), ActView::Key(code, false)]
}

/// The key events of a press: the key goes down and comes up again.
pub fn press_keys(code: &str) -> (r: Script)
    ensures
        r@ == press_acts(code@),
{
    let mut out = Script::new();
    out.key(code, true);
    out.key(code, false);
    out
}

/// The key events of a chord: whatever is held goes down first and comes up last.
pub open spec fn chord_acts(shift: bool, code: Seq<char>) -> Seq<ActView> {
    if shift {
        seq![
            ActView::Key("meta_l"@, true),
            ActView::Key("shift"@, true),
            ActView::Key(code, true),
            ActView::Key(code, false),
            ActView::Key("shift"@, false),
            ActView::Key("meta_l"@, false),
        ]
    } else {
        seq![
            ActView::Key("meta_l"@, true),
            ActView::Key(code, true),
            ActView::Key(code, false),
            ActView::Key("meta_l"@, false),
        ]
    }
}

/// The key events of a chord.
pub fn chord_keys(shift: bool, code: &str) -> (r: Script)
    ensures
        r@ == chord_acts(shift, code@),
{
    let mut out = Script::new();
    out.key("meta_l", true);
    if shift {
        out.key("shift", true);
    }
    out.key(code, true);
    out.key(code, false);
    if shift {
        out.key("shift", false);
    }
    out.key("meta_l", false);
    out
}

/// The key events of a press while the control key is held.
pub fn control_keys(code: &str) -> (r: Script)
    ensures
        r@ == seq![
            ActView::Key("ctrl"@, true),
            ActView::Key(code@, true),
            ActView::Key(code@, false),
            ActView::Key("ctrl"@, false),
        ],
{
    let mut out = Script::new();
    out.key("ctrl", true);
    out.key(code, true);
    out.key(code, false);
    out.key("ctrl", false);
    out
}

/// A key is held behind some key events: the last event of it is a press.
pub open spec fn is_held(a: Seq<ActView>, code: Seq<char>) -> bool
    decreases a.len(),
{
    if a.len() == 0 {
        false
    } else {
        match a.last() {
            ActView::Key(c, down) => if c == code {
                down
            } else {
                is_held(a.drop_last(), code)
            },
            _ => is_held(a.drop_last(), code),
        }
    }
}

/// A chord leaves no key held: whatever it pressed, it released.
pub proof fn law_a_chord_leaves_nothing_held(shift: bool, code: Seq<char>, key: Seq<char>)
    ensures
        !is_held(chord_acts(shift, code), key),
        !is_held(press_acts(code), key),
{
    reveal_with_fuel(is_held, 7);
    let a = chord_acts(shift, code);
    assert(a.drop_last().drop_last() =~= a.take(a.len() - 2));
    if shift {
        assert(a.drop_last() =~= seq![
            ActView::Key("meta_l"@, true),
            ActView::Key("shift"@, true),
            ActView::Key(code, true),
            ActView::Key(code, false),
            ActView::Key("shift"@, false),
        ]);
    }
}

/// The motions of some steps.
pub open spec fn step_acts(steps: Seq<(i32, i32)>) -> Seq<ActView> {
    steps.map_values(|s: (i32, i32)| ActView::Motion(s.0 as int, s.1 as int))
}

/// How long a pinned pointer is left alone, in milliseconds: what was sent has to drain before the
/// walk, or the device drops some of it.
pub const PIN_DRAIN: u64 = 500;

/// The acts that move the pointer to a place: straight there where its place is known, and over
/// the far corner where it is not.
pub open spec fn move_acts(pointer: Option<(i64, i64)>, x: int, y: int) -> Seq<ActView> {
    match pointer {
        Some(p) => step_acts(pointer::walk(x - p.0, y - p.1)),
        None => step_acts(
            Seq::new(pointer::PIN_STEPS as nat, |i: int| (pointer::STEP, pointer::STEP)),
        ).push(ActView::Sleep(PIN_DRAIN as int)) + step_acts(
            pointer::walk(x - pointer::CORNER.0, y - pointer::CORNER.1),
        ),
    }
}

impl Script {
    fn steps(&mut self, steps: &Vec<(i32, i32)>)
        ensures
            final(self)@ == old(self)@ + step_acts(steps@),
    {
        let ghost start = self@;
        let mut i: usize = 0;
        assert(start + step_acts(steps@.take(0)) =~= start);
        while i < steps.len()
            invariant
                i <= steps.len(),
                self@ == start + step_acts(steps@.take(i as int)),
            decreases steps.len() - i,
        {
            self.motion(steps[i].0, steps[i].1);
            i = i + 1;
            assert(self@ =~= start + step_acts(steps@.take(i as int)));
        }
        assert(steps@.take(i as int) =~= steps@);
    }
}

/// The acts that move the pointer to a place.
pub fn move_pointer_to(pointer: Option<(i64, i64)>, x: i64, y: i64) -> (r: Script)
    ensures
        r@ == move_acts(pointer, x as int, y as int),
{
    let mut out = Script::new();
    let from = match pointer {
        Some(p) => p,
        None => {
            let pin = pointer::pin_steps();
            out.steps(&pin);
            out.sleep(PIN_DRAIN);
            pointer::CORNER
        },
    };
    let walk = pointer::pointer_walk(from, (x, y));
    out.steps(&walk);
    assert(out@ =~= move_acts(pointer, x as int, y as int));
    out
}

/// The acts of one attempt to click at a place.
pub fn click_attempt(pointer: Option<(i64, i64)>, x: i64, y: i64) -> (r: Script)
    ensures
        r@ == move_acts(pointer, x as int, y as int) + seq![
            ActView::Button("left"@, true),
            ActView::Button("left"@, false),
        ],
{
    let mut out = move_pointer_to(pointer, x, y);
    out.button("left", true);
    out.button("left", false);
    assert(out@ =~= move_acts(pointer, x as int, y as int) + seq![
        ActView::Button("left"@, true),
        ActView::Button("left"@, false),
    ]);
    out
}

/// Where motions put a pointer that was at `at`.
pub open spec fn moved(at: (int, int), acts: Seq<ActView>) -> (int, int)
    decreases acts.len(),
{
    if acts.len() == 0 {
        at
    } else {
        match acts.last() {
            ActView::Motion(dx, dy) => {
                let p = moved(at, acts.drop_last());
                (p.0 + dx, p.1 + dy)
            },
            _ => moved(at, acts.drop_last()),
        }
    }
}

proof fn lemma_steps_move(at: (int, int), steps: Seq<(i32, i32)>)
    ensures
        moved(at, step_acts(steps)) == (
            at.0 + pointer::total(steps).0,
            at.1 + pointer::total(steps).1,
        ),
    decreases steps.len(),
{
    if steps.len() > 0 {
        lemma_steps_move(at, steps.drop_last());
        assert(step_acts(steps).drop_last() =~= step_acts(steps.drop_last()));
        pointer::lemma_total_last(steps);
    }
}

/// A pointer whose place is known ends where it is sent.
pub proof fn law_a_move_arrives(p: (i64, i64), x: int, y: int)
    ensures
        moved((p.0 as int, p.1 as int), move_acts(Some(p), x, y)) == (x, y),
{
    lemma_steps_move((p.0 as int, p.1 as int), pointer::walk(x - p.0, y - p.1));
    pointer::law_walk_arrives(x - p.0, y - p.1);
}

/// How many times a click is tried.
pub const ATTEMPTS: u32 = 3;

/// How long a click is waited for, in seconds.
pub const PER_ATTEMPT: u64 = 10;

/// What the compositor prints for a press at a place.
pub open spec fn press_line(x: int, y: int) -> Seq<char> {
    "compositor: press at x="@ + number::written(x) + " y="@ + number::written(y)
}

/// What the compositor prints for a press at a place.
pub fn click_line(x: i64, y: i64) -> (r: String)
    ensures
        r@ == press_line(x as int, y as int),
{
    let s = String::from_str("compositor: press at x=");
    let s = then_number(s, x);
    let s = then_text(s, " y=");
    then_number(s, y)
}

/// What follows an attempt to click.
#[derive(Debug, Clone, Copy, PartialEq, Eq, Structural)]
pub enum ClickStep {
    /// The click landed: the pointer is where it was sent.
    Landed,
    /// The pointer is somewhere else: pin it, skip what was printed, and try again.
    Again,
    /// It never landed.
    GaveUp,
}

/// What follows the `attempt`th attempt, counted from one.
pub open spec fn click_step(attempt: int, seen: bool) -> ClickStep {
    if seen {
        ClickStep::Landed
    } else if attempt < ATTEMPTS {
        ClickStep::Again
    } else {
        ClickStep::GaveUp
    }
}

/// What follows the `attempt`th attempt, counted from one.
pub fn after_click(attempt: u32, seen: bool) -> (r: ClickStep)
    ensures
        r == click_step(attempt as int, seen),
        r == (if seen {
            ClickStep::Landed
        } else if attempt < ATTEMPTS {
            ClickStep::Again
        } else {
            ClickStep::GaveUp
        }),
{
    if seen {
        ClickStep::Landed
    } else if attempt < ATTEMPTS {
        ClickStep::Again
    } else {
        ClickStep::GaveUp
    }
}

/// What is asked of the machine when the acts are done.
#[derive(Debug)]
pub enum Ask {
    /// What follows the last match on its line.
    Line,
    /// Whether this is printed within so many seconds.
    Within(String, u64),
    /// Nothing: go on.
    Nothing,
    /// Nothing more: the script is over.
    Over,
}

/// What is asked, over what its string holds.
pub enum AskView {
    Line,
    Within(Seq<char>, int),
    Nothing,
    Over,
}

impl View for Ask {
    type V = AskView;

    open spec fn view(&self) -> AskView {
        match *self {
            Ask::Line => AskView::Line,
            Ask::Within(s, n) => AskView::Within(s@, n as int),
            Ask::Nothing => AskView::Nothing,
            Ask::Over => AskView::Over,
        }
    }
}

/// What the machine answers.
#[derive(Debug)]
pub enum Answer {
    /// A line.
    Line(String),
    /// Whether it was printed in time.
    Seen(bool),
    /// Nothing was asked.
    Nothing,
}

/// An answer, over what its string holds.
pub enum AnswerView {
    Line(Seq<char>),
    Seen(bool),
    Nothing,
}

impl View for Answer {
    type V = AnswerView;

    open spec fn view(&self) -> AnswerView {
        match *self {
            Answer::Line(s) => AnswerView::Line(s@),
            Answer::Seen(b) => AnswerView::Seen(b),
            Answer::Nothing => AnswerView::Nothing,
        }
    }
}

/// A text is typed at the greeter key by key, each key followed by a wait for its redraw; it cannot be
/// typed exactly where some character of it has no key.
pub proof fn law_every_key_is_waited_for(s: Seq<char>)
    ensures
        match greeter_acts(s) {
            Some(acts) => {
                &&& acts.len() == 2 * s.len()
                &&& forall|i: int|
                    0 <= i < s.len() ==> qmp::greeter_key_of(#[trigger] s[i]) is Some && acts[2 * i]
                        == ActView::Press(qmp::greeter_key_of(s[i])->0) && acts[2 * i + 1]
                        == ActView::Expect("desktop-session-mgr: greeter redraw "@)
            },
            None => exists|i: int| 0 <= i < s.len() && qmp::greeter_key_of(#[trigger] s[i]) is None,
        },
    decreases s.len(),
{
    if s.len() > 0 {
        let front = s.drop_last();
        law_every_key_is_waited_for(front);
        let n = s.len() - 1;
        assert(s[n] == s.last());
        match greeter_acts(s) {
            Some(acts) => {
                let old = greeter_acts(front)->0;
                assert forall|i: int| 0 <= i < s.len() implies qmp::greeter_key_of(
                    #[trigger] s[i],
                ) is Some && acts[2 * i] == ActView::Press(qmp::greeter_key_of(s[i])->0) && acts[2 * i
                    + 1] == ActView::Expect("desktop-session-mgr: greeter redraw "@) by {
                    if i < n {
                        assert(front[i] == s[i]);
                        assert(acts[2 * i] == old[2 * i] && acts[2 * i + 1] == old[2 * i + 1]);
                    }
                }
            },
            None => {
                if greeter_acts(front) is None {
                    let i = choose|i: int|
                        0 <= i < front.len() && qmp::greeter_key_of(#[trigger] front[i]) is None;
                    assert(s[i] == front[i]);
                }
            },
        }
    }
}

/// A text is typed into the modal character by character, each followed by a wait for the list.
pub proof fn law_every_listing_is_waited_for(s: Seq<char>)
    ensures
        modal_acts(s).len() == 2 * s.len(),
        forall|i: int|
            0 <= i < s.len() ==> modal_acts(s)[2 * i] == ActView::Press(seq![#[trigger] s[i]])
                && modal_acts(s)[2 * i + 1] == ActView::Expect(
                "desktop-shell: applications modal listing "@,
            ),
    decreases s.len(),
{
    if s.len() > 0 {
        let front = s.drop_last();
        law_every_listing_is_waited_for(front);
        let n = s.len() - 1;
        assert forall|i: int| 0 <= i < s.len() implies modal_acts(s)[2 * i] == ActView::Press(
            seq![#[trigger] s[i]],
        ) && modal_acts(s)[2 * i + 1] == ActView::Expect("desktop-shell: applications modal listing "@) by {
            if i < n {
                assert(front[i] == s[i]);
                assert(modal_acts(s)[2 * i] == modal_acts(front)[2 * i]);
                assert(modal_acts(s)[2 * i + 1] == modal_acts(front)[2 * i + 1]);
            }
        }
    }
}

/// A line is typed at a terminal between two line ends, character by character, with a pause before
/// every key.
pub proof fn law_a_line_is_typed_between_two_ends(s: Seq<char>)
    ensures
        ({
            let acts = terminal_acts(s);
            let n = s.len() as int;
            &&& acts.len() == 2 * n + 4
            &&& forall|i: int| 0 <= i < n + 2 ==> acts[2 * i] == #[trigger] pause(i)
            &&& acts[1] == ActView::Press("ret"@)
            &&& acts[2 * n + 3] == ActView::Press("ret"@)
            &&& forall|i: int|
                0 <= i < n ==> acts[2 * i + 3] == ActView::Press(
                    if #[trigger] s[i] == ' ' {
                        "spc"@
                    } else {
                        seq![s[i]]
                    },
                )
        }),
{
    lemma_terminal_keys(s);
    let acts = terminal_acts(s);
    let n = s.len() as int;
    let keys = terminal_keys(s);
    assert forall|i: int| 0 <= i < n + 2 implies acts[2 * i] == #[trigger] pause(i) by {
        if 1 <= i <= n {
            assert(acts[2 * i] == keys[2 * (i - 1)]);
            assert(keys[2 * (i - 1)] == pause(i - 1));
        }
    }
    assert forall|i: int| 0 <= i < n implies acts[2 * i + 3] == ActView::Press(
        if #[trigger] s[i] == ' ' {
            "spc"@
        } else {
            seq![s[i]]
        },
    ) by {
        assert(acts[2 * i + 3] == keys[2 * i + 1]);
    }
}

/// The pause before a key, whichever it is.
pub open spec fn pause(i: int) -> ActView {
    ActView::Sleep(40)
}

proof fn lemma_terminal_keys(s: Seq<char>)
    ensures
        terminal_keys(s).len() == 2 * s.len(),
        forall|i: int| 0 <= i < s.len() ==> terminal_keys(s)[2 * i] == #[trigger] pause(i),
        forall|i: int|
            0 <= i < s.len() ==> terminal_keys(s)[2 * i + 1] == ActView::Press(
                terminal_key(#[trigger] s[i]),
            ),
    decreases s.len(),
{
    if s.len() > 0 {
        let front = s.drop_last();
        lemma_terminal_keys(front);
        let n = s.len() - 1;
        assert forall|i: int| 0 <= i < s.len() implies terminal_keys(s)[2 * i] == #[trigger] pause(i) by {
            if i < n {
                assert(terminal_keys(front)[2 * i] == pause(i));
                assert(terminal_keys(s)[2 * i] == terminal_keys(front)[2 * i]);
            }
        }
        assert forall|i: int| 0 <= i < s.len() implies terminal_keys(s)[2 * i + 1] == ActView::Press(
            terminal_key(#[trigger] s[i]),
        ) by {
            if i < n {
                assert(front[i] == s[i]);
                assert(terminal_keys(s)[2 * i + 1] == terminal_keys(front)[2 * i + 1]);
            }
        }
    }
}

/// While a chord's key is down the modifier is held, and shift with it exactly where asked.
pub proof fn law_a_chord_holds_its_modifiers(shift: bool, code: Seq<char>)
    requires
        code != "meta_l"@,
        code != "shift"@,
    ensures
        ({
            let acts = chord_acts(shift, code);
            let down = acts.take(acts.len() as int / 2);
            &&& down.last() == ActView::Key(code, true)
            &&& acts[acts.len() as int / 2] == ActView::Key(code, false)
            &&& is_held(down, code)
            &&& is_held(down, "meta_l"@)
            &&& is_held(down, "shift"@) <==> shift
        }),
{
    assert("meta_l"@ != "shift"@) by {
        reveal_strlit("meta_l");
        reveal_strlit("shift");
        assert("meta_l"@.len() != "shift"@.len());
    }
    reveal_with_fuel(is_held, 4);
    let acts = chord_acts(shift, code);
    let down = acts.take(acts.len() as int / 2);
    if shift {
        assert(down =~= seq![
            ActView::Key("meta_l"@, true),
            ActView::Key("shift"@, true),
            ActView::Key(code, true),
        ]);
        assert(down.drop_last() =~= seq![ActView::Key("meta_l"@, true), ActView::Key("shift"@, true)]);
        assert(down.drop_last().drop_last() =~= seq![ActView::Key("meta_l"@, true)]);
    } else {
        assert(down =~= seq![ActView::Key("meta_l"@, true), ActView::Key(code, true)]);
        assert(down.drop_last() =~= seq![ActView::Key("meta_l"@, true)]);
        assert(down.drop_last().drop_last() =~= Seq::empty());
    }
}

/// A pointer whose place is not known arrives too: it is pinned in the far corner, wherever on the
/// screen it was, and walks from there.
pub proof fn law_an_unknown_pointer_arrives(at: (int, int), x: int, y: int)
    requires
        pointer::on_screen(at),
        pointer::on_screen((x, y)),
    ensures
        ({
            let pins = Seq::new(20, |i: int| (100i32, 100i32));
            let walk = pointer::walk(x - 1279, y - 799);
            let acts = move_acts(None, x, y);
            &&& pointer::slid(pointer::slid(at, pins), walk) == (x, y)
            &&& acts == step_acts(pins) + seq![ActView::Sleep(500)] + step_acts(walk)
        }),
{
    let pins = Seq::new(20, |i: int| (100i32, 100i32));
    assert(pins =~= Seq::new(pointer::PIN_STEPS as nat, |i: int| (pointer::STEP, pointer::STEP)));
    pointer::law_pinning_reaches_the_corner(at);
    pointer::law_a_walk_on_the_screen_arrives((1279, 799), (x, y));
    assert(move_acts(None, x, y) =~= step_acts(pins) + seq![ActView::Sleep(500)] + step_acts(
        pointer::walk(x - 1279, y - 799),
    ));
}

/// A click that is seen landed, at whichever attempt; one that is not is tried three times in all.
pub proof fn law_a_click_is_tried_three_times(attempt: int, seen: bool)
    ensures
        click_step(attempt, seen) is Landed <==> seen,
        !seen && 1 <= attempt <= 2 ==> click_step(attempt, seen) is Again,
        !seen && attempt >= 3 ==> click_step(attempt, seen) is GaveUp,
{
}

} // verus!
