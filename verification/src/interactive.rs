//! The interactive gate: what is typed at the serial console of a release image, and what has to come
//! back.

use vstd::prelude::*;

use crate::script::ActView;
use crate::script::Script;

verus! {

/// Logging in: a wrong password is refused, and the right one starts a shell at home.
#[verifier::opaque]
pub open spec fn login_acts() -> Seq<ActView> {
    seq![
        ActView::Expect("nitrox login:"@),
        ActView::Send("alice"@),
        ActView::Expect("password:"@),
        ActView::Send("wrong-password"@),
        ActView::Expect("login incorrect"@),
        ActView::Expect("nitrox login:"@),
        ActView::Send("alice"@),
        ActView::Expect("\npassword:"@),
        ActView::Send("correct horse battery staple"@),
        ActView::Expect("libsession: nxsh spawned into the session namespace"@),
        ActView::Expect("/home>"@),
        ActView::Send("whoami"@),
        ActView::Expect("alice"@),
        ActView::Expect("/home>"@),
        ActView::Send("format(\"athome={}\", ($env.PWD == $env.HOME))"@),
        ActView::Expect("athome=true"@),
        ActView::Expect("/home>"@),
    ]
}

fn login_script() -> (r: Script)
    ensures
        r@ == login_acts(),
{
    reveal(login_acts);
    let mut o = Script::new();
    o.expect("nitrox login:");
    o.send("alice");
    o.expect("password:");
    o.send("wrong-password");
    o.expect("login incorrect");
    o.expect("nitrox login:");
    o.send("alice");
    o.expect("\npassword:");
    o.send("correct horse battery staple");
    o.expect("libsession: nxsh spawned into the session namespace");
    o.expect("/home>");
    o.send("whoami");
    o.expect("alice");
    o.expect("/home>");
    o.send("format(\"athome={}\", ($env.PWD == $env.HOME))");
    o.expect("athome=true");
    o.expect("/home>");
    o
}

/// Files: what is saved is read back and listed, and what is not reachable is said.
#[verifier::opaque]
pub open spec fn files_acts() -> Seq<ActView> {
    seq![
        ActView::Send("[1, 2] | save ./nx-login.txt"@),
        ActView::Expect("/home>"@),
        ActView::Send("format(\"rows={}\", (open ./nx-login.txt | count))"@),
        ActView::Expect("rows=2"@),
        ActView::Expect("/home>"@),
        ActView::Send("list ."@),
        ActView::Expect("nx-login.txt"@),
        ActView::Expect("/home>"@),
        ActView::Send("list /nope"@),
        ActView::Expect("filesystem unreachable"@),
        ActView::Expect("/home>"@),
        ActView::Send("def add(a, b) { a + b }"@),
        ActView::Expect("/home>"@),
        ActView::Send("let sum = add(2, 3)"@),
        ActView::Expect("/home>"@),
        ActView::Send("format(\"add={}\", sum)"@),
        ActView::Expect("add=5"@),
    ]
}

fn files_script() -> (r: Script)
    ensures
        r@ == files_acts(),
{
    reveal(files_acts);
    let mut o = Script::new();
    o.send("[1, 2] | save ./nx-login.txt");
    o.expect("/home>");
    o.send("format(\"rows={}\", (open ./nx-login.txt | count))");
    o.expect("rows=2");
    o.expect("/home>");
    o.send("list .");
    o.expect("nx-login.txt");
    o.expect("/home>");
    o.send("list /nope");
    o.expect("filesystem unreachable");
    o.expect("/home>");
    o.send("def add(a, b) { a + b }");
    o.expect("/home>");
    o.send("let sum = add(2, 3)");
    o.expect("/home>");
    o.send("format(\"add={}\", sum)");
    o.expect("add=5");
    o
}

/// History: earlier lines are recalled and searched for.
#[verifier::opaque]
pub open spec fn history_acts() -> Seq<ActView> {
    seq![
        ActView::Send("whoami"@),
        ActView::Expect("alice"@),
        ActView::Expect("/home>"@),
        ActView::Send("\u{1b}[A"@),
        ActView::Expect("alice"@),
        ActView::Expect("/home>"@),
        ActView::Send("date"@),
        ActView::Expect("unix"@),
        ActView::Expect("/home>"@),
        ActView::Send("\u{1b}[A\u{1b}[A"@),
        ActView::Expect("alice"@),
        ActView::Expect("/home>"@),
        ActView::Send("\u{12}whoa"@),
        ActView::Expect("alice"@),
        ActView::Expect("/home>"@),
        ActView::Send("date\u{12}who\u{7}"@),
        ActView::Expect("unix"@),
        ActView::Expect("/home>"@),
    ]
}

fn history_script() -> (r: Script)
    ensures
        r@ == history_acts(),
{
    reveal(history_acts);
    let mut o = Script::new();
    o.send("whoami");
    o.expect("alice");
    o.expect("/home>");
    o.send("\u{1b}[A");
    o.expect("alice");
    o.expect("/home>");
    o.send("date");
    o.expect("unix");
    o.expect("/home>");
    o.send("\u{1b}[A\u{1b}[A");
    o.expect("alice");
    o.expect("/home>");
    o.send("\u{12}whoa");
    o.expect("alice");
    o.expect("/home>");
    o.send("date\u{12}who\u{7}");
    o.expect("unix");
    o.expect("/home>");
    o
}

/// The language: loops, parsing, errors caught, and pipelines.
#[verifier::opaque]
pub open spec fn language_acts() -> Seq<ActView> {
    seq![
        ActView::Send("mut n = 0"@),
        ActView::Expect("/home>"@),
        ActView::Send("for x in 0..9 { n = n + 1\n if n == 3 { break } }"@),
        ActView::Expect("/home>"@),
        ActView::Send("format(\"n={}\", n)"@),
        ActView::Expect("n=3"@),
        ActView::Expect("/home>"@),
        ActView::Send("format(\"sum={}\", (\"40\" | parse Int) + 2)"@),
        ActView::Expect("sum=42"@),
        ActView::Expect("/home>"@),
        ActView::Send("\"abc\" | parse Int"@),
        ActView::Expect("cannot parse"@),
        ActView::Expect("/home>"@),
        ActView::Send("try { fail \"boom\" } catch (e) { format(\"caught={}\", e.message) }"@),
        ActView::Expect("caught=boom"@),
        ActView::Expect("/home>"@),
        ActView::Send("let n = try { \"x\" | parse Int } catch { 8080 }"@),
        ActView::Expect("/home>"@),
        ActView::Send("format(\"n={}\", n)"@),
        ActView::Expect("n=8080"@),
        ActView::Expect("/home>"@),
    ]
}

fn language_script() -> (r: Script)
    ensures
        r@ == language_acts(),
{
    reveal(language_acts);
    let mut o = Script::new();
    o.send("mut n = 0");
    o.expect("/home>");
    o.send("for x in 0..9 { n = n + 1\n if n == 3 { break } }");
    o.expect("/home>");
    o.send("format(\"n={}\", n)");
    o.expect("n=3");
    o.expect("/home>");
    o.send("format(\"sum={}\", (\"40\" | parse Int) + 2)");
    o.expect("sum=42");
    o.expect("/home>");
    o.send("\"abc\" | parse Int");
    o.expect("cannot parse");
    o.expect("/home>");
    o.send("try { fail \"boom\" } catch (e) { format(\"caught={}\", e.message) }");
    o.expect("caught=boom");
    o.expect("/home>");
    o.send("let n = try { \"x\" | parse Int } catch { 8080 }");
    o.expect("/home>");
    o.send("format(\"n={}\", n)");
    o.expect("n=8080");
    o.expect("/home>");
    o
}

/// Pipelines: counting, summing, splitting, membership and captures.
#[verifier::opaque]
pub open spec fn pipelines_acts() -> Seq<ActView> {
    seq![
        ActView::Send("format(\"len={}\", (\"hello\" | count))"@),
        ActView::Expect("len=5"@),
        ActView::Expect("/home>"@),
        ActView::Send("format(\"sum={}\", (1..=10 | sum))"@),
        ActView::Expect("sum=55"@),
        ActView::Expect("/home>"@),
        ActView::Send("\"a,b,c\" | split \",\" | join \"-\""@),
        ActView::Expect("a-b-c"@),
        ActView::Expect("/home>"@),
        ActView::Send("format(\"hit={}\", (2 in [1, 2]))"@),
        ActView::Expect("hit=true"@),
        ActView::Expect("/home>"@),
        ActView::Send("let g = \"port 8080\" | capture /(\\d+)/"@),
        ActView::Expect("/home>"@),
        ActView::Send("format(\"port={}\", (g[1] | parse Int))"@),
        ActView::Expect("port=8080"@),
        ActView::Expect("/home>"@),
        ActView::Send("format(\"alt={}\", (\"b\" ~= /a|b/))"@),
        ActView::Expect("alt=true"@),
        ActView::Expect("/home>"@),
    ]
}

fn pipelines_script() -> (r: Script)
    ensures
        r@ == pipelines_acts(),
{
    reveal(pipelines_acts);
    let mut o = Script::new();
    o.send("format(\"len={}\", (\"hello\" | count))");
    o.expect("len=5");
    o.expect("/home>");
    o.send("format(\"sum={}\", (1..=10 | sum))");
    o.expect("sum=55");
    o.expect("/home>");
    o.send("\"a,b,c\" | split \",\" | join \"-\"");
    o.expect("a-b-c");
    o.expect("/home>");
    o.send("format(\"hit={}\", (2 in [1, 2]))");
    o.expect("hit=true");
    o.expect("/home>");
    o.send("let g = \"port 8080\" | capture /(\\d+)/");
    o.expect("/home>");
    o.send("format(\"port={}\", (g[1] | parse Int))");
    o.expect("port=8080");
    o.expect("/home>");
    o.send("format(\"alt={}\", (\"b\" ~= /a|b/))");
    o.expect("alt=true");
    o.expect("/home>");
    o
}

/// Interrupts: a loop, a line being typed and a sleeping command are broken off.
#[verifier::opaque]
pub open spec fn interrupts_acts() -> Seq<ActView> {
    seq![
        ActView::Raw("while true { }\n\u{3}"@),
        ActView::Expect("interrupted"@),
        ActView::Expect("/home>"@),
        ActView::Send("format(\"alive={}\", 1 + 1)"@),
        ActView::Expect("alive=2"@),
        ActView::Expect("/home>"@),
        ActView::Raw("garbage-that-should-vanish\u{3}"@),
        ActView::Expect("^C"@),
        ActView::Expect("/home>"@),
        ActView::Send("format(\"clean={}\", 2 + 2)"@),
        ActView::Expect("clean=4"@),
        ActView::Expect("/home>"@),
        ActView::Raw("format(\"started={}\", 1)\nsleep 60\n"@),
        ActView::Expect("started=1"@),
        ActView::Raw("\u{3}"@),
        ActView::Expect("interrupted"@),
        ActView::Expect("/home>"@),
        ActView::Send("list [x]"@),
        ActView::Expect("cannot begin a bareword"@),
        ActView::Expect("/home>"@),
    ]
}

fn interrupts_script() -> (r: Script)
    ensures
        r@ == interrupts_acts(),
{
    reveal(interrupts_acts);
    let mut o = Script::new();
    o.raw("while true { }\n\u{3}");
    o.expect("interrupted");
    o.expect("/home>");
    o.send("format(\"alive={}\", 1 + 1)");
    o.expect("alive=2");
    o.expect("/home>");
    o.raw("garbage-that-should-vanish\u{3}");
    o.expect("^C");
    o.expect("/home>");
    o.send("format(\"clean={}\", 2 + 2)");
    o.expect("clean=4");
    o.expect("/home>");
    o.raw("format(\"started={}\", 1)\nsleep 60\n");
    o.expect("started=1");
    o.raw("\u{3}");
    o.expect("interrupted");
    o.expect("/home>");
    o.send("list [x]");
    o.expect("cannot begin a bareword");
    o.expect("/home>");
    o
}

/// The clipboard: what is copied is pasted, and what was copied before it is kept.
#[verifier::opaque]
pub open spec fn clipboard_acts() -> Seq<ActView> {
    seq![
        ActView::Send("\"clip-one\" | clip --copy"@),
        ActView::Expect("/home>"@),
        ActView::Send("clip"@),
        ActView::Expect("clip-one"@),
        ActView::Expect("/home>"@),
        ActView::Send("\"clip-two\" | clip --copy"@),
        ActView::Expect("/home>"@),
        ActView::Send("clip"@),
        ActView::Expect("clip-two"@),
        ActView::Expect("/home>"@),
        ActView::Send("clip 1"@),
        ActView::Expect("clip-one"@),
        ActView::Expect("/home>"@),
        ActView::Send("clip --list | count"@),
        ActView::Expect("2"@),
        ActView::Expect("/home>"@),
    ]
}

fn clipboard_script() -> (r: Script)
    ensures
        r@ == clipboard_acts(),
{
    reveal(clipboard_acts);
    let mut o = Script::new();
    o.send("\"clip-one\" | clip --copy");
    o.expect("/home>");
    o.send("clip");
    o.expect("clip-one");
    o.expect("/home>");
    o.send("\"clip-two\" | clip --copy");
    o.expect("/home>");
    o.send("clip");
    o.expect("clip-two");
    o.expect("/home>");
    o.send("clip 1");
    o.expect("clip-one");
    o.expect("/home>");
    o.send("clip --list | count");
    o.expect("2");
    o.expect("/home>");
    o
}

/// Leaving: the shell's status is reported, and the login comes back.
#[verifier::opaque]
pub open spec fn exits_acts() -> Seq<ActView> {
    seq![
        ActView::Send("exit 3"@),
        ActView::Expect("shell exit 3"@),
        ActView::Expect("nitrox login:"@),
        ActView::Send("alice"@),
        ActView::Expect("password:"@),
        ActView::Send("correct horse battery staple"@),
        ActView::Expect("/home>"@),
        ActView::Send("exit"@),
        ActView::Expect("nitrox login:"@),
        ActView::Send("alice"@),
        ActView::Expect("password:"@),
        ActView::Send("correct horse battery staple"@),
        ActView::Expect("/home>"@),
    ]
}

fn exits_script() -> (r: Script)
    ensures
        r@ == exits_acts(),
{
    reveal(exits_acts);
    let mut o = Script::new();
    o.send("exit 3");
    o.expect("shell exit 3");
    o.expect("nitrox login:");
    o.send("alice");
    o.expect("password:");
    o.send("correct horse battery staple");
    o.expect("/home>");
    o.send("exit");
    o.expect("nitrox login:");
    o.send("alice");
    o.expect("password:");
    o.send("correct horse battery staple");
    o.expect("/home>");
    o
}

/// The parts of the run.
pub const PARTS: usize = 8;

/// How many steps the run has.
pub const STEPS: usize = 6 + 4 + 4 + 3 + 2 + 4 + 1 + 2;

/// What a part of the run does.
pub open spec fn part_acts(i: int) -> Seq<ActView> {
    if i == 0 {
        login_acts()
    } else if i == 1 {
        files_acts()
    } else if i == 2 {
        history_acts()
    } else if i == 3 {
        language_acts()
    } else if i == 4 {
        pipelines_acts()
    } else if i == 5 {
        interrupts_acts()
    } else if i == 6 {
        clipboard_acts()
    } else {
        exits_acts()
    }
}

/// Where the steps of a part end: behind so many of its acts. A step is what is typed for one answer
/// and the waits up to it.
pub open spec fn step_ends(i: int) -> Seq<int> {
    if i == 0 {
        seq![1, 6, 8, 11, 14, 17]
    } else if i == 1 {
        seq![5, 8, 11, 17]
    } else if i == 2 {
        seq![6, 12, 15, 18]
    } else if i == 3 {
        seq![7, 13, 21]
    } else if i == 4 {
        seq![12, 20]
    } else if i == 5 {
        seq![6, 12, 17, 20]
    } else if i == 6 {
        seq![16]
    } else {
        seq![7, 13]
    }
}

/// How many steps the first `n` parts have.
pub open spec fn steps_before(n: nat) -> nat
    decreases n,
{
    if n == 0 {
        0
    } else {
        steps_before((n - 1) as nat) + step_ends(n - 1).len()
    }
}

/// How many steps a part has.
pub fn part_steps(i: usize) -> (r: usize)
    requires
        i < PARTS,
    ensures
        r == step_ends(i as int).len(),
{
    if i == 0 {
        6
    } else if i == 1 || i == 2 || i == 5 {
        4
    } else if i == 3 {
        3
    } else if i == 4 || i == 7 {
        2
    } else {
        1
    }
}

/// The steps make up the run: those of a part follow one another without a gap up to its last act,
/// each ends with an answer that is waited for, and the parts have as many as the run.
pub proof fn law_the_steps_make_up_the_run()
    ensures
        forall|i: int|
            0 <= i < PARTS ==> (#[trigger] step_ends(i)).len() > 0 && step_ends(i).last()
                == part_acts(i).len(),
        forall|i: int, j: int, k: int|
            0 <= i < PARTS && 0 <= j < k < step_ends(i).len() ==> 0 < #[trigger] step_ends(i)[j]
                < #[trigger] step_ends(i)[k],
        forall|i: int, k: int|
            0 <= i < PARTS && 0 <= k < step_ends(i).len() ==> part_acts(i)[(
            #[trigger] step_ends(i)[k]) - 1] is Expect,
        steps_before(PARTS as nat) == STEPS,
{
    reveal(login_acts);
    reveal(files_acts);
    reveal(history_acts);
    reveal(language_acts);
    reveal(pipelines_acts);
    reveal(interrupts_acts);
    reveal(clipboard_acts);
    reveal(exits_acts);
    reveal_with_fuel(steps_before, 9);
}

/// A part of the run. The parts are carried out one after the other, in one session.
pub fn interactive_part(i: usize) -> (r: Script)
    requires
        i < PARTS,
    ensures
        r@ == part_acts(i as int),
{
    if i == 0 {
        login_script()
    } else if i == 1 {
        files_script()
    } else if i == 2 {
        history_script()
    } else if i == 3 {
        language_script()
    } else if i == 4 {
        pipelines_script()
    } else if i == 5 {
        interrupts_script()
    } else if i == 6 {
        clipboard_script()
    } else {
        exits_script()
    }
}

/// Whatever is typed as a line is answered before the next is typed: behind every line of the run
/// comes a wait.
#[verifier::spinoff_prover]
#[verifier::rlimit(40)]
pub proof fn law_every_line_is_answered(i: int, k: int)
    requires
        0 <= i < 8,
        0 <= k < part_acts(i).len(),
        part_acts(i)[k] is Send,
    ensures
        k + 1 < part_acts(i).len(),
        part_acts(i)[k + 1] is Expect,
{
    reveal(login_acts);
    reveal(files_acts);
    reveal(history_acts);
    reveal(language_acts);
    reveal(pipelines_acts);
    reveal(interrupts_acts);
    reveal(clipboard_acts);
    reveal(exits_acts);
}

} // verus!
