//! Interrupt entries: every one opens a lock-ordering scope, by the text of the kernel's source.

use vstd::prelude::*;

use crate::text;

verus! {

/// How the guard of an interrupt scope is bound.
#[derive(Debug, Clone, Copy, PartialEq, Eq, Structural)]
pub enum ScopeBinding {
    /// To a name: it lives to the end of the block.
    Held,
    /// To `_`: it is dropped at once.
    Discarded,
    /// Not at all: it is dropped at the end of the statement.
    Temporary,
}

/// How the guard is bound on a line that makes it.
pub open spec fn binding(line: Seq<char>) -> ScopeBinding {
    match text::strip_prefix(text::trim(line), "let "@) {
        None => ScopeBinding::Temporary,
        Some(rest) => match text::split_once(rest, "="@) {
            None => ScopeBinding::Temporary,
            Some((b, _)) => {
                let name = text::trim(text::strip_all(text::trim(b), "mut "@));
                if text::trim(text::split(name, ":"@)[0]) == "_"@ {
                    ScopeBinding::Discarded
                } else {
                    ScopeBinding::Held
                }
            },
        },
    }
}

/// Tells how the guard is bound on a line that makes it.
pub fn scope_binding(line: &str) -> (r: ScopeBinding)
    ensures
        r == binding(line@),
{
    let c = text::chars_of(line);
    read_binding(c.as_slice())
}

fn read_binding(line: &[char]) -> (r: ScopeBinding)
    ensures
        r == binding(line@),
{
    proof {
        reveal_strlit("mut ");
        reveal_strlit(":");
    }
    let t = text::trimmed(line);
    match text::after_prefix(t, "let ") {
        None => ScopeBinding::Temporary,
        Some(rest) => match text::cut(rest, "=") {
            None => ScopeBinding::Temporary,
            Some((b, _)) => {
                let name = text::trimmed(text::stripped_all(text::trimmed(b), "mut "));
                let p = text::pieces(name, ":");
                assert(text::views(p@)[0] == p[0]@);
                if text::equals(text::trimmed(p[0]), "_") {
                    ScopeBinding::Discarded
                } else {
                    ScopeBinding::Held
                }
            },
        },
    }
}

/// A trimmed line that is a comment.
pub open spec fn is_comment(t: Seq<char>) -> bool {
    text::starts_with(t, "//"@) || text::starts_with(t, "*"@)
}

/// The dispatcher that an entry stub on the line names.
pub open spec fn called_on(line: Seq<char>) -> Option<Seq<char>> {
    let p = text::split(line, "dispatch = sym"@);
    if p.len() > 1 && text::leading_ident(text::trim(p[1])).len() > 0 {
        Some(text::leading_ident(text::trim(p[1])))
    } else {
        None
    }
}

/// The identifier that `s` ends with.
pub open spec fn trailing_ident(s: Seq<char>) -> Seq<char>
    decreases s.len(),
{
    if s.len() > 0 && text::is_ident(s.last()) {
        trailing_ident(s.drop_last()).push(s.last())
    } else {
        Seq::empty()
    }
}

/// How many leading characters are of an identifier or a colon.
pub open spec fn path_run(s: Seq<char>) -> nat
    decreases s.len(),
{
    if s.len() > 0 && (text::is_ident(s[0]) || s[0] == ':') {
        1 + path_run(s.skip(1))
    } else {
        0
    }
}

/// The path that `s` begins with.
pub open spec fn leading_path(s: Seq<char>) -> Seq<char> {
    s.take(path_run(s) as int)
}

/// The operand and the target of another `sym` operand on the line, that is not meant to be one.
pub open spec fn stray_on(line: Seq<char>) -> Option<(Seq<char>, Seq<char>)> {
    let n = text::replace(line, "=sym"@, "= sym"@);
    let p = text::split(n, "= sym"@);
    let operand = trailing_ident(text::trim_end(p[0]));
    let target = leading_path(text::trim(p[1]));
    if is_comment(text::trim(line)) || p.len() < 2 || text::contains(n, "dispatch = sym"@)
        || operand.len() == 0 || target.len() == 0 || target == "crate::sched::thread_enter"@ {
        None
    } else {
        Some((operand, target))
    }
}

/// After the first `n` lines an invocation of the macro is open whose function has not been seen.
pub open spec fn pending(ls: Seq<Seq<char>>, n: int) -> bool
    decreases n,
{
    if n <= 0 {
        false
    } else {
        let t = text::trim(ls[n - 1]);
        if text::starts_with(t, "irq_dispatcher!"@) {
            true
        } else {
            pending(ls, n - 1) && !text::starts_with(t, "fn "@)
        }
    }
}

/// The dispatcher that the macro generates from line `i`.
pub open spec fn generated_at(ls: Seq<Seq<char>>, i: int) -> Option<Seq<char>> {
    let t = text::trim(ls[i]);
    if !text::starts_with(t, "irq_dispatcher!"@) && pending(ls, i) && text::starts_with(t, "fn "@) {
        Some(text::leading_ident(t.skip(3)))
    } else {
        None
    }
}

/// The function that a trimmed line begins, and what follows its keyword.
pub open spec fn function_head(t: Seq<char>) -> Option<Seq<char>> {
    match text::strip_prefix(t, "fn "@) {
        Some(a) => Some(a),
        None => match text::strip_prefix(t, "unsafe extern \"C\" fn "@) {
            Some(a) => Some(a),
            None => text::strip_prefix(t, "extern \"C\" fn "@),
        },
    }
}

/// The first line from `i` on that is a closing brace alone, or the end.
pub open spec fn body_end(ls: Seq<Seq<char>>, i: int) -> int
    decreases ls.len() - i,
{
    if i >= ls.len() || ls[i] == "}"@ {
        i
    } else {
        body_end(ls, i + 1)
    }
}

/// A line of code that asserts the entry from user mode to be safe.
pub open spec fn asserts_entry(line: Seq<char>) -> bool {
    !is_comment(text::trim(line)) && text::contains(line, "assert_user_entry_safe"@)
}

/// The function that line `i` begins, where its body asserts the entry from user mode to be safe.
pub open spec fn user_entry_at(ls: Seq<Seq<char>>, i: int) -> Option<Seq<char>> {
    match function_head(text::trim(ls[i])) {
        Some(after) => if exists|j: int| i <= j < body_end(ls, i) && asserts_entry(#[trigger] ls[j]) {
            Some(text::leading_ident(after))
        } else {
            None
        },
        None => None,
    }
}

/// The first of the lines `i..end` that makes the guard.
pub open spec fn scope_line(ls: Seq<Seq<char>>, i: int, end: int) -> Option<int>
    decreases end - i,
{
    if i >= end {
        None
    } else if text::contains(ls[i], "enter_interrupt"@) {
        Some(i)
    } else {
        scope_line(ls, i + 1, end)
    }
}

/// The definition of the macro that line `i` begins: how it binds the guard, if it makes one
/// within twelve lines.
pub open spec fn macro_at(ls: Seq<Seq<char>>, i: int) -> Option<Option<ScopeBinding>> {
    if text::starts_with(text::trim(ls[i]), "macro_rules! irq_dispatcher"@) {
        let end = if i + 12 < ls.len() {
            i + 12
        } else {
            ls.len() as int
        };
        match scope_line(ls, i, end) {
            Some(j) => Some(Some(binding(ls[j]))),
            None => Some(None),
        }
    } else {
        None
    }
}

/// What one source file says of interrupt entries.
#[derive(Debug)]
pub struct FileScan {
    /// The entry stubs: their lines, counted from one, and the dispatchers they name.
    pub called: Vec<(usize, String)>,
    /// The dispatchers that the macro generates.
    pub generated: Vec<String>,
    /// The functions that assert the entry from user mode to be safe.
    pub user_entry: Vec<String>,
    /// Other `sym` operands: their lines, their names, their targets.
    pub stray: Vec<(usize, String, String)>,
    /// Definitions of the macro: their lines, and how each binds the guard.
    pub macros: Vec<(usize, Option<ScopeBinding>)>,
}

/// What [`FileScan`] holds.
#[verifier::ext_equal]
pub struct Scan {
    pub called: Seq<(nat, Seq<char>)>,
    pub generated: Seq<Seq<char>>,
    pub user_entry: Seq<Seq<char>>,
    pub stray: Seq<(nat, Seq<char>, Seq<char>)>,
    pub macros: Seq<(nat, Option<ScopeBinding>)>,
}

impl View for FileScan {
    type V = Scan;

    open spec fn view(&self) -> Scan {
        Scan {
            called: self.called@.map_values(|x: (usize, String)| (x.0 as nat, x.1@)),
            generated: text::strs(self.generated@),
            user_entry: text::strs(self.user_entry@),
            stray: self.stray@.map_values(|x: (usize, String, String)| (x.0 as nat, x.1@, x.2@)),
            macros: self.macros@.map_values(|x: (usize, Option<ScopeBinding>)| (x.0 as nat, x.1)),
        }
    }
}

/// Appends what there is.
pub open spec fn add_some<T>(s: Seq<T>, x: Option<T>) -> Seq<T> {
    match x {
        Some(v) => s.push(v),
        None => s,
    }
}

/// What the first `n` lines of a file say.
pub open spec fn scanned(ls: Seq<Seq<char>>, n: int) -> Scan
    decreases n,
{
    if n <= 0 {
        Scan {
            called: Seq::empty(),
            generated: Seq::empty(),
            user_entry: Seq::empty(),
            stray: Seq::empty(),
            macros: Seq::empty(),
        }
    } else {
        let s = scanned(ls, n - 1);
        let i = n - 1;
        Scan {
            called: add_some(
                s.called,
                match called_on(ls[i]) {
                    Some(x) => Some((n as nat, x)),
                    None => None,
                },
            ),
            generated: add_some(s.generated, generated_at(ls, i)),
            user_entry: add_some(s.user_entry, user_entry_at(ls, i)),
            stray: add_some(
                s.stray,
                match stray_on(ls[i]) {
                    Some((a, b)) => Some((n as nat, a, b)),
                    None => None,
                },
            ),
            macros: add_some(
                s.macros,
                match macro_at(ls, i) {
                    Some(b) => Some((n as nat, b)),
                    None => None,
                },
            ),
        }
    }
}

fn comment(t: &[char]) -> (r: bool)
    ensures
        r == is_comment(t@),
{
    text::begins(t, "//") || text::begins(t, "*")
}

fn read_called(line: &[char]) -> (r: Option<String>)
    ensures
        match r {
            Some(s) => called_on(line@) == Some(s@),
            None => called_on(line@) is None,
        },
{
    proof {
        reveal_strlit("dispatch = sym");
    }
    let p = text::pieces(line, "dispatch = sym");
    assert(text::views(p@).len() == p.len());
    if p.len() > 1 {
        assert(text::views(p@)[1] == p[1]@);
        let id = text::ident(text::trimmed(p[1]));
        if id.len() > 0 {
            return Some(text::string_of(id));
        }
    }
    None
}

fn read_trailing_ident(s: &[char]) -> (r: &[char])
    ensures
        r@ == trailing_ident(s@),
{
    let mut i: usize = s.len();
    assert(s@.take(s.len() as int) =~= s@);
    assert(s@.skip(s.len() as int) =~= Seq::<char>::empty());
    while i > 0 && (text::alnum(s[i - 1]) || s[i - 1] == '_')
        invariant
            i <= s.len(),
            trailing_ident(s@) == trailing_ident(s@.take(i as int)) + s@.skip(i as int),
        decreases i,
    {
        proof {
            let t = s@.take(i as int);
            assert(t.drop_last() =~= s@.take(i - 1));
            assert(trailing_ident(t) == trailing_ident(s@.take(i - 1)).push(s[i - 1]));
            assert(trailing_ident(s@.take(i - 1)).push(s[i - 1]) + s@.skip(i as int)
                =~= trailing_ident(s@.take(i - 1)) + s@.skip(i - 1));
        }
        i = i - 1;
    }
    proof {
        let t = s@.take(i as int);
        assert(trailing_ident(t) =~= Seq::<char>::empty());
        assert(Seq::<char>::empty() + s@.skip(i as int) =~= s@.skip(i as int));
    }
    text::skip(s, i)
}

fn read_path(s: &[char]) -> (r: &[char])
    ensures
        r@ == leading_path(s@),
{
    let mut i: usize = 0;
    assert(s@.skip(0) =~= s@);
    while i < s.len() && (text::alnum(s[i]) || s[i] == '_' || s[i] == ':')
        invariant
            i <= s.len(),
            path_run(s@) == i + path_run(s@.skip(i as int)),
        decreases s.len() - i,
    {
        assert(s@.skip(i as int).skip(1) =~= s@.skip(i + 1));
        i = i + 1;
    }
    text::take(s, i)
}

fn read_stray(line: &[char]) -> (r: Option<(String, String)>)
    ensures
        match r {
            Some((a, b)) => stray_on(line@) == Some((a@, b@)),
            None => stray_on(line@) is None,
        },
{
    proof {
        reveal_strlit("=sym");
        reveal_strlit("= sym");
    }
    if comment(text::trimmed(line)) {
        return None;
    }
    let n = text::replaced(line, "=sym", "= sym");
    let p = text::pieces(n.as_slice(), "= sym");
    assert(text::views(p@).len() == p.len());
    if p.len() < 2 || text::has_str(n.as_slice(), "dispatch = sym") {
        return None;
    }
    assert(text::views(p@)[0] == p[0]@);
    assert(text::views(p@)[1] == p[1]@);
    let operand = read_trailing_ident(text::trimmed_end(p[0]));
    let target = read_path(text::trimmed(p[1]));
    if operand.len() == 0 || target.len() == 0 || text::equals(
        target,
        "crate::sched::thread_enter",
    ) {
        return None;
    }
    Some((text::string_of(operand), text::string_of(target)))
}

fn read_head<'a>(t: &'a [char]) -> (r: Option<&'a [char]>)
    ensures
        match r {
            Some(a) => function_head(t@) == Some(a@),
            None => function_head(t@) is None,
        },
{
    match text::after_prefix(t, "fn ") {
        Some(a) => Some(a),
        None => match text::after_prefix(t, "unsafe extern \"C\" fn ") {
            Some(a) => Some(a),
            None => text::after_prefix(t, "extern \"C\" fn "),
        },
    }
}

fn read_user_entry(ls: &Vec<&[char]>, i: usize) -> (r: Option<String>)
    requires
        i < ls.len(),
    ensures
        match r {
            Some(s) => user_entry_at(text::views(ls@), i as int) == Some(s@),
            None => user_entry_at(text::views(ls@), i as int) is None,
        },
{
    let ghost all = text::views(ls@);
    assert(all[i as int] == ls[i as int]@);
    match read_head(text::trimmed(ls[i])) {
        None => None,
        Some(after) => {
            let mut j: usize = i;
            while j < ls.len() && !text::equals(ls[j], "}")
                invariant
                    i <= j <= ls.len(),
                    i < ls.len(),
                    all == text::views(ls@),
                    body_end(all, i as int) == body_end(all, j as int),
                    function_head(text::trim(all[i as int])) == Some(after@),
                    forall|k: int| i <= k < j ==> !asserts_entry(#[trigger] all[k]),
                decreases ls.len() - j,
            {
                assert(all[j as int] == ls[j as int]@);
                if !comment(text::trimmed(ls[j])) && text::has_str(ls[j], "assert_user_entry_safe") {
                    proof {
                        lemma_body_end(all, j as int);
                        assert(asserts_entry(all[j as int]));
                        assert(body_end(all, j as int) > j);
                    }
                    return Some(text::string_of(text::ident(after)));
                }
                j = j + 1;
            }
            proof {
                if j < ls.len() {
                    assert(all[j as int] == ls[j as int]@);
                }
                assert(body_end(all, i as int) == j);
            }
            None
        },
    }
}

proof fn lemma_body_end(ls: Seq<Seq<char>>, i: int)
    requires
        0 <= i <= ls.len(),
    ensures
        i <= body_end(ls, i) <= ls.len(),
        i < ls.len() && ls[i] != "}"@ ==> body_end(ls, i) > i,
    decreases ls.len() - i,
{
    if i < ls.len() && ls[i] != "}"@ {
        lemma_body_end(ls, i + 1);
    }
}

fn read_macro(ls: &Vec<&[char]>, i: usize) -> (r: Option<Option<ScopeBinding>>)
    requires
        i < ls.len(),
    ensures
        r == macro_at(text::views(ls@), i as int),
{
    let ghost all = text::views(ls@);
    assert(all[i as int] == ls[i as int]@);
    if !text::begins(text::trimmed(ls[i]), "macro_rules! irq_dispatcher") {
        return None;
    }
    let end: usize = if ls.len() - i > 12 {
        i + 12
    } else {
        ls.len()
    };
    let mut j: usize = i;
    while j < end
        invariant
            i <= j <= end <= ls.len(),
            all == text::views(ls@),
            scope_line(all, i as int, end as int) == scope_line(all, j as int, end as int),
            end == (if i + 12 < all.len() {
                i + 12
            } else {
                all.len() as int
            }),
            text::starts_with(text::trim(all[i as int]), "macro_rules! irq_dispatcher"@),
        decreases end - j,
    {
        assert(all[j as int] == ls[j as int]@);
        if text::has_str(ls[j], "enter_interrupt") {
            return Some(Some(read_binding(ls[j])));
        }
        j = j + 1;
    }
    Some(None)
}

/// Reads what a source file says of interrupt entries.
pub fn scan_file(source: &str) -> (r: FileScan)
    ensures
        r@ == scanned(text::lines(source@), text::lines(source@).len() as int),
{
    let c = text::chars_of(source);
    let ls = text::lines_of(c.as_slice());
    let ghost all = text::lines(source@);
    let mut out = FileScan {
        called: Vec::new(),
        generated: Vec::new(),
        user_entry: Vec::new(),
        stray: Vec::new(),
        macros: Vec::new(),
    };
    let mut open = false;
    let mut i: usize = 0;
    assert(text::views(ls@).len() == ls.len());
    assert(out@ =~= scanned(all, 0));
    while i < ls.len()
        invariant
            i <= ls.len(),
            ls.len() == all.len(),
            all == text::views(ls@),
            open == pending(all, i as int),
            out@ == scanned(all, i as int),
        decreases ls.len() - i,
    {
        let ghost was = out@;
        assert(all[i as int] == ls[i as int]@);
        let t = text::trimmed(ls[i]);
        match read_called(ls[i]) {
            Some(x) => {
                out.called.push((i + 1, x));
            },
            None => {},
        }
        match read_stray(ls[i]) {
            Some((a, b)) => {
                out.stray.push((i + 1, a, b));
            },
            None => {},
        }
        proof {
            reveal_strlit("fn ");
        }
        if text::begins(t, "irq_dispatcher!") {
            open = true;
        } else if open && text::begins(t, "fn ") {
            let name = text::string_of(text::ident(text::skip(t, 3)));
            out.generated.push(name);
            open = false;
        }
        match read_user_entry(&ls, i) {
            Some(x) => {
                out.user_entry.push(x);
            },
            None => {},
        }
        match read_macro(&ls, i) {
            Some(b) => {
                out.macros.push((i + 1, b));
            },
            None => {},
        }
        i = i + 1;
        proof {
            let now = scanned(all, i as int);
            assert(out@.called =~= now.called);
            assert(out@.generated =~= now.generated);
            assert(out@.user_entry =~= now.user_entry);
            assert(out@.stray =~= now.stray);
            assert(out@.macros =~= now.macros);
            assert(out@ =~= now);
        }
    }
    out
}

/// How many entry stubs the kernel has.
pub const EXPECTED_ENTRY_STUBS: usize = 7;

/// What is wrong with the interrupt entries. A file is named by its place among the files, and an
/// item by its place in the file's list.
#[derive(Debug, Clone, Copy, PartialEq, Eq, Structural)]
pub enum IrqFault {
    /// No entry stub was found at all.
    NoStubs,
    /// No definition of the macro was found.
    NoMacro,
    /// A definition of the macro makes no guard.
    NoScope { file: usize, item: usize },
    /// A definition of the macro drops the guard at once.
    Discarded { file: usize, item: usize },
    /// A definition of the macro drops the guard with its statement.
    Temporary { file: usize, item: usize },
    /// There are this many entry stubs.
    WrongCount(usize),
    /// An operand that is not named as a dispatcher.
    Stray { file: usize, item: usize },
    /// A stub's dispatcher opens no scope.
    Unscoped { file: usize, item: usize },
}

/// What is wrong with a definition of the macro.
pub open spec fn macro_fault(b: Option<ScopeBinding>, file: usize, item: usize) -> Option<IrqFault> {
    match b {
        None => Some(IrqFault::NoScope { file, item }),
        Some(ScopeBinding::Discarded) => Some(IrqFault::Discarded { file, item }),
        Some(ScopeBinding::Temporary) => Some(IrqFault::Temporary { file, item }),
        Some(ScopeBinding::Held) => None,
    }
}

/// A stub's dispatcher opens a scope: the macro generates it, or it asserts the entry from user
/// mode to be safe, in the stub's own file.
pub open spec fn is_scoped(f: Scan, name: Seq<char>) -> bool {
    f.generated.contains(name) || f.user_entry.contains(name)
}

/// What is wrong with the first `k` definitions of a file.
pub open spec fn macro_faults_in(f: Scan, file: usize, k: int) -> Seq<IrqFault>
    decreases k,
{
    if k <= 0 {
        Seq::empty()
    } else {
        add_some(
            macro_faults_in(f, file, k - 1),
            macro_fault(f.macros[k - 1].1, file, (k - 1) as usize),
        )
    }
}

/// The stray operands among the first `k` of a file.
pub open spec fn stray_faults_in(file: usize, k: int) -> Seq<IrqFault> {
    Seq::new(k as nat, |i: int| IrqFault::Stray { file, item: i as usize })
}

/// The stubs without a scope among the first `k` of a file.
pub open spec fn unscoped_in(f: Scan, file: usize, k: int) -> Seq<IrqFault>
    decreases k,
{
    if k <= 0 {
        Seq::empty()
    } else {
        let front = unscoped_in(f, file, k - 1);
        if is_scoped(f, f.called[k - 1].1) {
            front
        } else {
            front.push(IrqFault::Unscoped { file, item: (k - 1) as usize })
        }
    }
}

/// What is wrong with the definitions of the first `n` files.
pub open spec fn macro_faults(fs: Seq<FileScan>, n: int) -> Seq<IrqFault>
    decreases n,
{
    if n <= 0 {
        Seq::empty()
    } else {
        macro_faults(fs, n - 1) + macro_faults_in(
            fs[n - 1]@,
            (n - 1) as usize,
            fs[n - 1].macros@.len() as int,
        )
    }
}

/// The stray operands of the first `n` files.
pub open spec fn stray_faults(fs: Seq<FileScan>, n: int) -> Seq<IrqFault>
    decreases n,
{
    if n <= 0 {
        Seq::empty()
    } else {
        stray_faults(fs, n - 1) + stray_faults_in((n - 1) as usize, fs[n - 1].stray@.len() as int)
    }
}

/// The stubs without a scope of the first `n` files.
pub open spec fn unscoped(fs: Seq<FileScan>, n: int) -> Seq<IrqFault>
    decreases n,
{
    if n <= 0 {
        Seq::empty()
    } else {
        unscoped(fs, n - 1) + unscoped_in(
            fs[n - 1]@,
            (n - 1) as usize,
            fs[n - 1].called@.len() as int,
        )
    }
}

/// How many stubs the first `n` files have.
pub open spec fn stubs(fs: Seq<FileScan>, n: int) -> nat
    decreases n,
{
    if n <= 0 {
        0
    } else {
        stubs(fs, n - 1) + fs[n - 1].called@.len()
    }
}

/// How many definitions of the macro the first `n` files have.
pub open spec fn definitions(fs: Seq<FileScan>, n: int) -> nat
    decreases n,
{
    if n <= 0 {
        0
    } else {
        definitions(fs, n - 1) + fs[n - 1].macros@.len()
    }
}

/// Everything that is wrong, in order.
pub open spec fn irq_faults(fs: Seq<FileScan>) -> Seq<IrqFault> {
    let n = fs.len() as int;
    let a = if stubs(fs, n) == 0 {
        seq![IrqFault::NoStubs]
    } else {
        Seq::empty()
    };
    let b = if definitions(fs, n) == 0 {
        seq![IrqFault::NoMacro]
    } else {
        Seq::empty()
    };
    let c = if stubs(fs, n) != EXPECTED_ENTRY_STUBS {
        seq![IrqFault::WrongCount(stubs(fs, n) as usize)]
    } else {
        Seq::empty()
    };
    a + b + macro_faults(fs, n) + c + stray_faults(fs, n) + unscoped(fs, n)
}

fn among(names: &Vec<String>, name: &[char]) -> (r: bool)
    ensures
        r == text::strs(names@).contains(name@),
{
    let mut i: usize = 0;
    while i < names.len()
        invariant
            i <= names.len(),
            forall|j: int| 0 <= j < i ==> names[j]@ != name@,
        decreases names.len() - i,
    {
        let n = text::chars_of(names[i].as_str());
        if text::same(n.as_slice(), name) {
            assert(text::strs(names@)[i as int] == name@);
            return true;
        }
        i = i + 1;
    }
    assert forall|j: int| 0 <= j < text::strs(names@).len() implies text::strs(names@)[j] != name@ by {
        assert(text::strs(names@)[j] == names[j]@);
    }
    false
}

fn add_macro_faults(f: &FileScan, file: usize, out: &mut Vec<IrqFault>)
    ensures
        final(out)@ == old(out)@ + macro_faults_in(f@, file, f.macros@.len() as int),
{
    let ghost start = out@;
    let mut k: usize = 0;
    assert(start + macro_faults_in(f@, file, 0) =~= start);
    while k < f.macros.len()
        invariant
            k <= f.macros.len(),
            out@ == start + macro_faults_in(f@, file, k as int),
        decreases f.macros.len() - k,
    {
        assert(f@.macros[k as int].1 == f.macros[k as int].1);
        let ghost front = macro_faults_in(f@, file, k as int);
        match f.macros[k].1 {
            None => {
                out.push(IrqFault::NoScope { file, item: k });
            },
            Some(ScopeBinding::Discarded) => {
                out.push(IrqFault::Discarded { file, item: k });
            },
            Some(ScopeBinding::Temporary) => {
                out.push(IrqFault::Temporary { file, item: k });
            },
            Some(ScopeBinding::Held) => {},
        }
        assert(out@ =~= start + macro_faults_in(f@, file, k + 1));
        k = k + 1;
    }
}

fn add_stray_faults(f: &FileScan, file: usize, out: &mut Vec<IrqFault>)
    ensures
        final(out)@ == old(out)@ + stray_faults_in(file, f.stray@.len() as int),
{
    let ghost start = out@;
    let mut k: usize = 0;
    assert(start + stray_faults_in(file, 0) =~= start);
    while k < f.stray.len()
        invariant
            k <= f.stray.len(),
            out@ == start + stray_faults_in(file, k as int),
        decreases f.stray.len() - k,
    {
        out.push(IrqFault::Stray { file, item: k });
        assert(out@ =~= start + stray_faults_in(file, k + 1));
        k = k + 1;
    }
}

fn add_unscoped(f: &FileScan, file: usize, out: &mut Vec<IrqFault>)
    ensures
        final(out)@ == old(out)@ + unscoped_in(f@, file, f.called@.len() as int),
{
    let ghost start = out@;
    let mut k: usize = 0;
    assert(start + unscoped_in(f@, file, 0) =~= start);
    while k < f.called.len()
        invariant
            k <= f.called.len(),
            out@ == start + unscoped_in(f@, file, k as int),
        decreases f.called.len() - k,
    {
        assert(f@.called[k as int].1 == f.called[k as int].1@);
        let n = text::chars_of(f.called[k].1.as_str());
        if !among(&f.generated, n.as_slice()) && !among(&f.user_entry, n.as_slice()) {
            out.push(IrqFault::Unscoped { file, item: k });
        }
        assert(out@ =~= start + unscoped_in(f@, file, k + 1));
        k = k + 1;
    }
}

/// Checks the interrupt entries of the files.
pub fn check_irq_scope(files: &Vec<FileScan>) -> (r: Vec<IrqFault>)
    requires
        stubs(files@, files@.len() as int) <= usize::MAX,
    ensures
        r@ == irq_faults(files@),
{
    let mut count: usize = 0;
    let mut any_macro = false;
    let mut i: usize = 0;
    while i < files.len()
        invariant
            i <= files.len(),
            stubs(files@, files@.len() as int) <= usize::MAX,
            count == stubs(files@, i as int),
            any_macro == (definitions(files@, i as int) > 0),
        decreases files.len() - i,
    {
        proof {
            lemma_stubs_grow(files@, i + 1, files@.len() as int);
        }
        count = count + files[i].called.len();
        any_macro = any_macro || files[i].macros.len() > 0;
        i = i + 1;
    }
    let mut out: Vec<IrqFault> = Vec::new();
    if count == 0 {
        out.push(IrqFault::NoStubs);
    }
    if !any_macro {
        out.push(IrqFault::NoMacro);
    }
    let ghost head = out@;
    i = 0;
    assert(head + macro_faults(files@, 0) =~= head);
    while i < files.len()
        invariant
            i <= files.len(),
            out@ == head + macro_faults(files@, i as int),
        decreases files.len() - i,
    {
        add_macro_faults(&files[i], i, &mut out);
        i = i + 1;
        assert(out@ =~= head + macro_faults(files@, i as int));
    }
    if count != EXPECTED_ENTRY_STUBS {
        out.push(IrqFault::WrongCount(count));
    }
    let ghost mid = out@;
    i = 0;
    assert(mid + stray_faults(files@, 0) =~= mid);
    while i < files.len()
        invariant
            i <= files.len(),
            out@ == mid + stray_faults(files@, i as int),
        decreases files.len() - i,
    {
        add_stray_faults(&files[i], i, &mut out);
        i = i + 1;
        assert(out@ =~= mid + stray_faults(files@, i as int));
    }
    let ghost low = out@;
    i = 0;
    assert(low + unscoped(files@, 0) =~= low);
    while i < files.len()
        invariant
            i <= files.len(),
            out@ == low + unscoped(files@, i as int),
        decreases files.len() - i,
    {
        add_unscoped(&files[i], i, &mut out);
        i = i + 1;
        assert(out@ =~= low + unscoped(files@, i as int));
    }
    assert(out@ =~= irq_faults(files@));
    out
}

proof fn lemma_stubs_grow(fs: Seq<FileScan>, a: int, b: int)
    requires
        0 <= a <= b <= fs.len(),
    ensures
        stubs(fs, a) <= stubs(fs, b),
    decreases b,
{
    if a < b {
        lemma_stubs_grow(fs, a, b - 1);
    }
}

proof fn lemma_unscoped_in(f: Scan, file: usize, k: int, j: int)
    requires
        0 <= j < k <= f.called.len(),
        unscoped_in(f, file, k).len() == 0,
    ensures
        is_scoped(f, f.called[j].1),
    decreases k,
{
    if j < k - 1 {
        lemma_unscoped_in(f, file, k - 1, j);
    }
}

proof fn lemma_unscoped(fs: Seq<FileScan>, n: int, i: int)
    requires
        0 <= i < n <= fs.len(),
        unscoped(fs, n).len() == 0,
    ensures
        unscoped_in(fs[i]@, i as usize, fs[i].called@.len() as int).len() == 0,
    decreases n,
{
    if i < n - 1 {
        lemma_unscoped(fs, n - 1, i);
    }
}

proof fn lemma_macros_in(f: Scan, file: usize, k: int, j: int)
    requires
        0 <= j < k <= f.macros.len(),
        macro_faults_in(f, file, k).len() == 0,
    ensures
        f.macros[j].1 == Some(ScopeBinding::Held),
    decreases k,
{
    if j < k - 1 {
        lemma_macros_in(f, file, k - 1, j);
    }
}

proof fn lemma_macros(fs: Seq<FileScan>, n: int, i: int)
    requires
        0 <= i < n <= fs.len(),
        macro_faults(fs, n).len() == 0,
    ensures
        macro_faults_in(fs[i]@, i as usize, fs[i].macros@.len() as int).len() == 0,
    decreases n,
{
    if i < n - 1 {
        lemma_macros(fs, n - 1, i);
    }
}

proof fn lemma_strays(fs: Seq<FileScan>, n: int, i: int)
    requires
        0 <= i < n <= fs.len(),
        stray_faults(fs, n).len() == 0,
    ensures
        fs[i].stray@.len() == 0,
    decreases n,
{
    if i < n - 1 {
        lemma_strays(fs, n - 1, i);
    }
}

/// Where nothing is wrong, there are as many stubs as there should be, and the very dispatcher that a
/// stub names is one that the macro generates in the stub's own file, or one there that asserts the
/// entry from user mode; every definition of the macro holds its guard, and no operand is stray.
#[verifier::spinoff_prover]
#[verifier::rlimit(60)]
pub proof fn law_a_clean_kernel_scopes_every_entry(fs: Seq<FileScan>, file: int, item: int)
    requires
        irq_faults(fs).len() == 0,
        0 <= file < fs.len(),
        0 <= item < fs[file].called@.len(),
    ensures
        stubs(fs, fs.len() as int) == 7,
        stubs(fs, fs.len() as int) == EXPECTED_ENTRY_STUBS,
        definitions(fs, fs.len() as int) > 0,
        is_scoped(fs[file]@, fs[file].called@[item].1@),
        fs[file]@.generated.contains(fs[file].called@[item].1@) || fs[file]@.user_entry.contains(
            fs[file].called@[item].1@,
        ),
        forall|f: int, k: int|
            0 <= f < fs.len() && 0 <= k < fs[f].macros@.len() ==> (#[trigger] fs[f].macros@[k]).1
                == Some(ScopeBinding::Held),
        forall|f: int| 0 <= f < fs.len() ==> (#[trigger] fs[f]).stray@.len() == 0,
{
    let n = fs.len() as int;
    assert(unscoped(fs, n).len() == 0);
    lemma_unscoped(fs, n, file);
    lemma_unscoped_in(fs[file]@, file as usize, fs[file].called@.len() as int, item);
    assert(fs[file]@.called[item].1 == fs[file].called@[item].1@);
    assert forall|f: int, k: int| 0 <= f < fs.len() && 0 <= k < fs[f].macros@.len() implies (
    #[trigger] fs[f].macros@[k]).1 == Some(ScopeBinding::Held) by {
        lemma_macros(fs, n, f);
        lemma_macros_in(fs[f]@, f as usize, fs[f].macros@.len() as int, k);
        assert(fs[f]@.macros[k].1 == fs[f].macros@[k].1);
    }
    assert forall|f: int| 0 <= f < fs.len() implies (#[trigger] fs[f]).stray@.len() == 0 by {
        lemma_strays(fs, n, f);
    }
}

proof fn lemma_unscoped_found(f: Scan, file: usize, k: int, j: int)
    requires
        0 <= j < k <= f.called.len(),
        !f.generated.contains(f.called[j].1),
        !f.user_entry.contains(f.called[j].1),
    ensures
        unscoped_in(f, file, k).contains(IrqFault::Unscoped { file, item: j as usize }),
    decreases k,
{
    let x = IrqFault::Unscoped { file, item: j as usize };
    if j < k - 1 {
        lemma_unscoped_found(f, file, k - 1, j);
        let front = unscoped_in(f, file, k - 1);
        let m = choose|m: int| 0 <= m < front.len() && front[m] == x;
        assert(unscoped_in(f, file, k)[m] == x);
    } else {
        assert(unscoped_in(f, file, k).last() == x);
    }
}

proof fn lemma_unscoped_in_file(fs: Seq<FileScan>, n: int, i: int, x: IrqFault)
    requires
        0 <= i < n <= fs.len(),
        unscoped_in(fs[i]@, i as usize, fs[i].called@.len() as int).contains(x),
    ensures
        unscoped(fs, n).contains(x),
    decreases n,
{
    let front = unscoped(fs, n - 1);
    let here = unscoped_in(fs[n - 1]@, (n - 1) as usize, fs[n - 1].called@.len() as int);
    if i < n - 1 {
        lemma_unscoped_in_file(fs, n - 1, i, x);
        let m = choose|m: int| 0 <= m < front.len() && front[m] == x;
        assert((front + here)[m] == x);
    } else {
        let m = choose|m: int| 0 <= m < here.len() && here[m] == x;
        assert((front + here)[front.len() + m] == x);
    }
}

/// A stub is reported whose own dispatcher the macro does not generate and that does not assert the
/// entry from user mode, whatever else its file generates or asserts.
#[verifier::spinoff_prover]
#[verifier::rlimit(60)]
pub proof fn law_an_unscoped_stub_is_reported(fs: Seq<FileScan>, file: int, item: int)
    requires
        fs.len() <= usize::MAX,
        0 <= file < fs.len(),
        0 <= item < fs[file].called@.len(),
        !fs[file]@.generated.contains(fs[file].called@[item].1@),
        !fs[file]@.user_entry.contains(fs[file].called@[item].1@),
    ensures
        irq_faults(fs).contains(IrqFault::Unscoped { file: file as usize, item: item as usize }),
{
    let n = fs.len() as int;
    let x = IrqFault::Unscoped { file: file as usize, item: item as usize };
    assert(fs[file]@.called[item].1 == fs[file].called@[item].1@);
    lemma_unscoped_found(fs[file]@, file as usize, fs[file].called@.len() as int, item);
    lemma_unscoped_in_file(fs, n, file, x);
    let all = irq_faults(fs);
    let tail = unscoped(fs, n);
    let m = choose|m: int| 0 <= m < tail.len() && tail[m] == x;
    assert(all[all.len() - tail.len() + m] == x);
}

proof fn lemma_nothing_unscoped_in(f: Scan, file: usize, k: int)
    requires
        0 <= k <= f.called.len(),
        forall|j: int|
            0 <= j < k ==> f.generated.contains((#[trigger] f.called[j]).1)
                || f.user_entry.contains(f.called[j].1),
    ensures
        unscoped_in(f, file, k).len() == 0,
    decreases k,
{
    if k > 0 {
        lemma_nothing_unscoped_in(f, file, k - 1);
        assert(f.generated.contains(f.called[k - 1].1) || f.user_entry.contains(f.called[k - 1].1));
    }
}

proof fn lemma_nothing_wrong(fs: Seq<FileScan>, n: int)
    requires
        0 <= n <= fs.len(),
        forall|f: int, k: int|
            0 <= f < n && 0 <= k < fs[f].called@.len() ==> fs[f]@.generated.contains(
                (#[trigger] fs[f].called@[k]).1@,
            ) || fs[f]@.user_entry.contains(fs[f].called@[k].1@),
        forall|f: int, k: int|
            0 <= f < n && 0 <= k < fs[f].macros@.len() ==> (#[trigger] fs[f].macros@[k]).1 == Some(
                ScopeBinding::Held,
            ),
        forall|f: int| 0 <= f < n ==> (#[trigger] fs[f]).stray@.len() == 0,
    ensures
        unscoped(fs, n).len() == 0,
        macro_faults(fs, n).len() == 0,
        stray_faults(fs, n).len() == 0,
    decreases n,
{
    if n > 0 {
        lemma_nothing_wrong(fs, n - 1);
        let f = fs[n - 1]@;
        assert forall|j: int| 0 <= j < f.called.len() implies f.generated.contains(
            (#[trigger] f.called[j]).1,
        ) || f.user_entry.contains(f.called[j].1) by {
            assert(f.called[j].1 == fs[n - 1].called@[j].1@);
        }
        lemma_nothing_unscoped_in(f, (n - 1) as usize, f.called.len() as int);
        assert forall|j: int| 0 <= j < f.macros.len() implies (#[trigger] f.macros[j]).1 == Some(
            ScopeBinding::Held,
        ) by {
            assert(f.macros[j].1 == fs[n - 1].macros@[j].1);
        }
        lemma_held_macros(f, (n - 1) as usize, f.macros.len() as int);
        assert(fs[n - 1].stray@.len() == 0);
    }
}

proof fn lemma_held_macros(f: Scan, file: usize, k: int)
    requires
        0 <= k <= f.macros.len(),
        forall|j: int|
            0 <= j < f.macros.len() ==> (#[trigger] f.macros[j]).1 == Some(ScopeBinding::Held),
    ensures
        macro_faults_in(f, file, k).len() == 0,
    decreases k,
{
    if k > 0 {
        lemma_held_macros(f, file, k - 1);
        assert(f.macros[k - 1].1 == Some(ScopeBinding::Held));
    }
}

/// A kernel passes that has its seven stubs, each with a dispatcher that is generated or asserts, a
/// macro that holds its guard, and no stray operand.
#[verifier::spinoff_prover]
#[verifier::rlimit(60)]
pub proof fn law_a_scoped_kernel_passes(fs: Seq<FileScan>)
    requires
        stubs(fs, fs.len() as int) == 7,
        definitions(fs, fs.len() as int) > 0,
        forall|f: int, k: int|
            0 <= f < fs.len() && 0 <= k < fs[f].called@.len() ==> fs[f]@.generated.contains(
                (#[trigger] fs[f].called@[k]).1@,
            ) || fs[f]@.user_entry.contains(fs[f].called@[k].1@),
        forall|f: int, k: int|
            0 <= f < fs.len() && 0 <= k < fs[f].macros@.len() ==> (#[trigger] fs[f].macros@[k]).1
                == Some(ScopeBinding::Held),
        forall|f: int| 0 <= f < fs.len() ==> (#[trigger] fs[f]).stray@.len() == 0,
    ensures
        irq_faults(fs).len() == 0,
{
    lemma_nothing_wrong(fs, fs.len() as int);
}

/// An identifier.
pub open spec fn is_name(s: Seq<char>) -> bool {
    s.len() > 0 && forall|i: int| 0 <= i < s.len() ==> text::is_ident(#[trigger] s[i])
}

proof fn lemma_leading_name(name: Seq<char>, after: Seq<char>)
    requires
        forall|i: int| 0 <= i < name.len() ==> text::is_ident(#[trigger] name[i]),
        after.len() == 0 || !text::is_ident(after[0]),
    ensures
        text::leading_ident(name + after) == name,
    decreases name.len(),
{
    let s = name + after;
    lemma_name_run(name, after);
    assert(s.take(name.len() as int) =~= name);
}

proof fn lemma_name_run(name: Seq<char>, after: Seq<char>)
    requires
        forall|i: int| 0 <= i < name.len() ==> text::is_ident(#[trigger] name[i]),
        after.len() == 0 || !text::is_ident(after[0]),
    ensures
        text::ident_run(name + after) == name.len(),
    decreases name.len(),
{
    let s = name + after;
    if name.len() > 0 {
        assert(s[0] == name[0]);
        assert(s.skip(1) =~= name.skip(1) + after);
        assert forall|i: int| 0 <= i < name.skip(1).len() implies text::is_ident(
            #[trigger] name.skip(1)[i],
        ) by {
            assert(name.skip(1)[i] == name[i + 1]);
        }
        lemma_name_run(name.skip(1), after);
    } else {
        assert(s =~= after);
    }
}

/// The dispatcher of a stub is the name that its operand gives.
#[verifier::spinoff_prover]
#[verifier::rlimit(60)]
pub proof fn law_a_stub_names_its_dispatcher(
    before: Seq<char>,
    name: Seq<char>,
    after: Seq<char>,
)
    requires
        text::lacks(before, 'd'),
        is_name(name),
        after.len() > 0,
        !text::is_ident(after[0]),
        !text::is_space(after.last()),
        text::lacks(after, '='),
    ensures
        called_on(before + "dispatch = sym"@ + " "@ + name + after) == Some(name),
{
    reveal_strlit("dispatch = sym");
    reveal_strlit(" ");
    let pat = "dispatch = sym"@;
    let rest = " "@ + name + after;
    assert(before + pat + " "@ + name + after =~= before + pat + rest);
    text::lemma_cut(before, pat, rest);
    assert(text::lacks(name, '=')) by {
        assert forall|i: int| 0 <= i < name.len() implies name[i] != '=' by {
            assert(text::is_ident(name[i]));
        }
    }
    assert(text::lacks(rest, '='));
    text::lemma_lacking(rest, pat, 9);
    let t = name + after;
    assert(rest.skip(1) =~= t);
    assert(text::is_ident(name[0]));
    assert(t[0] == name[0]);
    assert(!text::is_space(t[0]));
    text::lemma_trim_plain(t);
    assert(text::trim(rest) == t);
    lemma_leading_name(name, after);
}

/// The function that follows an invocation of the macro is generated, and no other: lines between the
/// two do not matter, and a function without an invocation before it is not generated.
#[verifier::spinoff_prover]
#[verifier::rlimit(60)]
pub proof fn law_the_macro_generates_the_next_function(ls: Seq<Seq<char>>, i: int, j: int)
    requires
        0 <= i < j < ls.len(),
        text::starts_with(text::trim(ls[i]), "irq_dispatcher!"@),
        forall|k: int| i < k < j ==> !text::starts_with(text::trim(#[trigger] ls[k]), "fn "@),
        text::starts_with(text::trim(ls[j]), "fn "@),
    ensures
        generated_at(ls, j) == Some(text::leading_ident(text::trim(ls[j]).skip(3))),
        forall|k: int|
            j < k < ls.len() && (forall|m: int|
                j < m < k ==> !text::starts_with(text::trim(#[trigger] ls[m]), "irq_dispatcher!"@))
                ==> (#[trigger] generated_at(ls, k)) is None,
{
    lemma_pending(ls, i, j);
    reveal_strlit("fn ");
    reveal_strlit("irq_dispatcher!");
    let t = text::trim(ls[j]);
    assert(!text::starts_with(t, "irq_dispatcher!"@)) by {
        if text::starts_with(t, "irq_dispatcher!"@) {
            assert(t.subrange(0, 15)[0] == 'i');
            assert(t.subrange(0, 3)[0] == 'f');
        }
    }
    assert(!pending(ls, j + 1));
    assert forall|k: int|
        j < k < ls.len() && (forall|m: int|
            j < m < k ==> !text::starts_with(text::trim(#[trigger] ls[m]), "irq_dispatcher!"@))
            implies (#[trigger] generated_at(ls, k)) is None by {
        lemma_not_pending(ls, j + 1, k);
    }
}

proof fn lemma_pending(ls: Seq<Seq<char>>, i: int, j: int)
    requires
        0 <= i < j <= ls.len(),
        text::starts_with(text::trim(ls[i]), "irq_dispatcher!"@),
        forall|k: int| i < k < j ==> !text::starts_with(text::trim(#[trigger] ls[k]), "fn "@),
    ensures
        pending(ls, j),
    decreases j,
{
    if j > i + 1 {
        lemma_pending(ls, i, j - 1);
        assert(!text::starts_with(text::trim(ls[j - 1]), "fn "@));
    }
}

proof fn lemma_not_pending(ls: Seq<Seq<char>>, i: int, j: int)
    requires
        0 <= i <= j <= ls.len(),
        !pending(ls, i),
        forall|k: int|
            i <= k < j ==> !text::starts_with(text::trim(#[trigger] ls[k]), "irq_dispatcher!"@),
    ensures
        !pending(ls, j),
    decreases j,
{
    if j > i {
        lemma_not_pending(ls, i, j - 1);
        assert(!text::starts_with(text::trim(ls[j - 1]), "irq_dispatcher!"@));
    }
}

proof fn lemma_body_end_at(ls: Seq<Seq<char>>, i: int, e: int)
    requires
        0 <= i <= e < ls.len(),
        ls[e] == "}"@,
        forall|k: int| i <= k < e ==> #[trigger] ls[k] != "}"@,
    ensures
        body_end(ls, i) == e,
    decreases e - i,
{
    if i < e {
        assert(ls[i] != "}"@);
        lemma_body_end_at(ls, i + 1, e);
    }
}

/// A function asserts the entry from user mode exactly where a line of its own body does, that is no
/// comment: up to the brace that closes it, and not in another function.
#[verifier::spinoff_prover]
#[verifier::rlimit(60)]
pub proof fn law_a_user_entry_asserts_for_itself(
    ls: Seq<Seq<char>>,
    i: int,
    e: int,
    name: Seq<char>,
    after: Seq<char>,
)
    requires
        0 <= i < e < ls.len(),
        ls[e] == "}"@,
        forall|k: int| i <= k < e ==> #[trigger] ls[k] != "}"@,
        is_name(name),
        after.len() > 0,
        !text::is_ident(after[0]),
        text::trim(ls[i]) == "fn "@ + name + after,
    ensures
        user_entry_at(ls, i) == (if exists|j: int|
            i <= j < e && text::contains(#[trigger] ls[j], "assert_user_entry_safe"@)
                && !text::starts_with(text::trim(ls[j]), "//"@) && !text::starts_with(
                text::trim(ls[j]),
                "*"@,
            ) {
            Some(name)
        } else {
            None
        }),
{
    reveal_strlit("fn ");
    lemma_body_end_at(ls, i, e);
    let t = text::trim(ls[i]);
    let rest = name + after;
    assert(t =~= "fn "@ + rest);
    text::lemma_stands(Seq::empty(), "fn "@, rest);
    assert(t.skip(3) =~= rest);
    lemma_leading_name(name, after);
    assert forall|j: int| asserts_entry(#[trigger] ls[j]) <==> text::contains(
        ls[j],
        "assert_user_entry_safe"@,
    ) && !text::starts_with(text::trim(ls[j]), "//"@) && !text::starts_with(
        text::trim(ls[j]),
        "*"@,
    ) by {}
}

/// A definition of the macro binds its guard as the first line of it does that makes one, of the
/// twelve from its head on; without such a line it makes none.
#[verifier::spinoff_prover]
#[verifier::rlimit(60)]
pub proof fn law_the_macros_guard_is_found(ls: Seq<Seq<char>>, i: int, j: int)
    requires
        0 <= i <= j < ls.len(),
        text::starts_with(text::trim(ls[i]), "macro_rules! irq_dispatcher"@),
        forall|k: int| i <= k < j ==> !text::contains(#[trigger] ls[k], "enter_interrupt"@),
        text::contains(ls[j], "enter_interrupt"@),
    ensures
        macro_at(ls, i) == (if j < i + 12 {
            Some(Some(binding(ls[j])))
        } else {
            Some(None)
        }),
{
    let end = if i + 12 < ls.len() {
        i + 12
    } else {
        ls.len() as int
    };
    lemma_scope_line(ls, i, j, end);
}

proof fn lemma_scope_line(ls: Seq<Seq<char>>, i: int, j: int, end: int)
    requires
        0 <= i <= j < ls.len(),
        end <= ls.len(),
        forall|k: int| i <= k < j ==> !text::contains(#[trigger] ls[k], "enter_interrupt"@),
        text::contains(ls[j], "enter_interrupt"@),
    ensures
        scope_line(ls, i, end) == (if j < end {
            Some(j)
        } else {
            None
        }),
    decreases j - i,
{
    if i < end && i < j {
        assert(!text::contains(ls[i], "enter_interrupt"@));
        lemma_scope_line(ls, i + 1, j, end);
    }
}

/// A guard is held by a name, discarded by `_`, and temporary without a binding.
#[verifier::spinoff_prover]
#[verifier::rlimit(60)]
pub proof fn law_a_guard_is_held_by_a_name(name: Seq<char>, value: Seq<char>)
    requires
        is_name(name),
        value.len() > 0,
        !text::is_space(value.last()),
    ensures
        name != "_"@ ==> binding("let "@ + name + " ="@ + value) is Held,
        binding("let "@ + "_"@ + " ="@ + value) is Discarded,
        !text::is_space(value[0]) && !text::starts_with(value, "let "@) ==> binding(value)
            is Temporary,
{
    reveal_strlit("let ");
    reveal_strlit("_");
    if !text::is_space(value[0]) {
        text::lemma_trim_plain(value);
    }
    assert(text::is_ident('_'));
    assert(is_name("_"@));
    lemma_binding(name, value);
    lemma_binding("_"@, value);
}

proof fn lemma_binding(name: Seq<char>, value: Seq<char>)
    requires
        is_name(name),
        value.len() > 0,
        !text::is_space(value.last()),
    ensures
        binding("let "@ + name + " ="@ + value) == (if name == "_"@ {
            ScopeBinding::Discarded
        } else {
            ScopeBinding::Held
        }),
{
    reveal_strlit("let ");
    reveal_strlit(" =");
    reveal_strlit("=");
    reveal_strlit("mut ");
    reveal_strlit(":");
    reveal_strlit(" ");
    let line = "let "@ + name + " ="@ + value;
    assert(line[0] == 'l');
    assert(line.last() == value.last());
    text::lemma_trim_plain(line);
    let rest = name + " ="@ + value;
    assert(line =~= "let "@ + rest);
    text::lemma_stands(Seq::empty(), "let "@, rest);
    assert(line.skip(4) =~= rest);
    let b = name + " "@;
    assert(rest =~= b + "="@ + value);
    assert forall|i: int| 0 <= i < name.len() implies name[i] != '=' && name[i] != ':' && name[i]
        != ' ' && !text::is_space(name[i]) by {
        assert(text::is_ident(name[i]));
    }
    assert(text::lacks(b, '='));
    text::lemma_cut(b, "="@, value);
    assert(b =~= name.push(' '));
    text::lemma_trim_plain(name);
    text::lemma_trim_push(name, ' ');
    assert(text::trim(b) == name);
    assert(!text::starts_with(name, "mut "@)) by {
        if text::starts_with(name, "mut "@) {
            assert(name.subrange(0, 4)[3] == ' ');
            assert(name[3] == ' ');
        }
    }
    assert(text::strip_all(name, "mut "@) == name);
    assert(text::lacks(name, ':'));
    text::lemma_lacking(name, ":"@, 0);
}

proof fn lemma_add_some<T>(s: Seq<T>, x: Option<T>, y: T)
    ensures
        add_some(s, x).contains(y) <==> s.contains(y) || x == Some(y),
{
    let t = add_some(s, x);
    if s.contains(y) {
        let k = choose|k: int| 0 <= k < s.len() && s[k] == y;
        assert(t[k] == y);
    }
    if x == Some(y) {
        assert(t.last() == y);
    }
    if t.contains(y) {
        let k = choose|k: int| 0 <= k < t.len() && t[k] == y;
        if k < s.len() {
            assert(s[k] == y);
        }
    }
}

/// A file's scan holds what its lines say, each under the number of its line, and nothing else.
#[verifier::spinoff_prover]
#[verifier::rlimit(60)]
pub proof fn law_a_scan_holds_every_line(
    ls: Seq<Seq<char>>,
    n: int,
    k: nat,
    name: Seq<char>,
    target: Seq<char>,
    guard: Option<ScopeBinding>,
)
    requires
        0 <= n <= ls.len(),
    ensures
        ({
            let s = scanned(ls, n);
            &&& s.called.contains((k, name)) <==> 1 <= k <= n && called_on(ls[k - 1]) == Some(name)
            &&& s.stray.contains((k, name, target)) <==> 1 <= k <= n && stray_on(ls[k - 1]) == Some(
                (name, target),
            )
            &&& s.macros.contains((k, guard)) <==> 1 <= k <= n && macro_at(ls, k - 1) == Some(guard)
            &&& s.generated.contains(name) <==> exists|i: int|
                0 <= i < n && #[trigger] generated_at(ls, i) == Some(name)
            &&& s.user_entry.contains(name) <==> exists|i: int|
                0 <= i < n && #[trigger] user_entry_at(ls, i) == Some(name)
        }),
    decreases n,
{
    if n > 0 {
        law_a_scan_holds_every_line(ls, n - 1, k, name, target, guard);
        let s = scanned(ls, n - 1);
        let i = n - 1;
        lemma_add_some(
            s.called,
            match called_on(ls[i]) {
                Some(x) => Some((n as nat, x)),
                None => None,
            },
            (k, name),
        );
        lemma_add_some(
            s.stray,
            match stray_on(ls[i]) {
                Some((a, b)) => Some((n as nat, a, b)),
                None => None,
            },
            (k, name, target),
        );
        lemma_add_some(
            s.macros,
            match macro_at(ls, i) {
                Some(b) => Some((n as nat, b)),
                None => None,
            },
            (k, guard),
        );
        lemma_add_some(s.generated, generated_at(ls, i), name);
        lemma_add_some(s.user_entry, user_entry_at(ls, i), name);
    }
}

/// An operand other than the dispatcher's is stray, with what it names, unless it names the entry of a
/// thread; on a line of comment it is none.
#[verifier::spinoff_prover]
#[verifier::rlimit(60)]
pub proof fn law_another_operand_is_stray(before: Seq<char>, operand: Seq<char>, target: Seq<char>, after: Seq<char>)
    requires
        text::lacks(before, '='),
        before.len() == 0 || !text::is_ident(before.last()),
        is_name(operand),
        target.len() > 0,
        forall|i: int| 0 <= i < target.len() ==> text::is_ident(#[trigger] target[i]) || target[i] == ':',
        text::lacks(after, '='),
        after.len() == 0 || (!text::is_ident(after[0]) && after[0] != ':' && !text::is_space(
            after.last(),
        )),
    ensures
        ({
            let line = before + operand + seq![' '] + "= sym"@ + (seq![' '] + (target + after));
            let marked = text::contains(line, "dispatch = sym"@) || text::starts_with(
                text::trim(line),
                "//"@,
            ) || text::starts_with(text::trim(line), "*"@);
            stray_on(line) == if marked || target == "crate::sched::thread_enter"@ {
                None
            } else {
                Some((operand, target))
            }
        }),
{
    assert("= sym"@.len() == 5 && "= sym"@[0] == '=' && "= sym"@[1] == ' ') by {
        reveal_strlit("= sym");
    }
    assert("=sym"@.len() == 4 && "=sym"@[0] == '=' && "=sym"@[1] == 's') by {
        reveal_strlit("=sym");
    }
    let front = before + operand;
    let pre = front + seq![' '];
    let said = target + after;
    let post = seq![' '] + said;
    let line = pre + "= sym"@ + post;
    assert(line =~= before + operand + seq![' '] + "= sym"@ + (seq![' '] + (target + after)));
    assert forall|i: int| 0 <= i < pre.len() implies pre[i] != '=' by {
        if i < before.len() {
            assert(pre[i] == before[i]);
        } else if i < front.len() {
            assert(pre[i] == operand[i - before.len()]);
            assert(text::is_ident(operand[i - before.len()]));
        }
    }
    assert forall|i: int| 0 <= i < post.len() implies post[i] != '=' by {
        if 0 < i <= target.len() {
            assert(post[i] == target[i - 1]);
            assert(text::is_ident(target[i - 1]) || target[i - 1] == ':');
        } else if i > target.len() {
            assert(post[i] == after[i - 1 - target.len()]);
        }
    }
    let n = pre.len() as int;
    assert forall|i: int| !text::occurs_at(line, "=sym"@, i) by {
        if text::occurs_at(line, "=sym"@, i) {
            text::lemma_begins(line, "=sym"@, i, 0);
            text::lemma_begins(line, "=sym"@, i, 1);
            if i < n {
                assert(line[i] == pre[i]);
            } else if i == n {
                assert(line[n + 1] == "= sym"@[1]);
            } else if i >= n + 5 {
                assert(line[i] == post[i - n - 5]);
            } else {
                lemma_one_equals();
                assert(line[i] == "= sym"@[i - n]);
            }
        }
    }
    text::lemma_find(line, "=sym"@);
    assert(text::split(line, "=sym"@) =~= seq![line]);
    assert(text::replace(line, "=sym"@, "= sym"@) == line);
    text::lemma_cut(pre, "= sym"@, post);
    text::lemma_lacking(post, "= sym"@, 0);
    let p = text::split(line, "= sym"@);
    assert(p =~= seq![pre, post]);
    assert(text::is_ident(operand[operand.len() - 1]));
    reveal_with_fuel(text::trim_end, 2);
    assert(pre.drop_last() =~= front);
    assert(front.last() == operand[operand.len() - 1]);
    assert(text::trim_end(pre) == front);
    lemma_trailing(before, operand);
    assert(text::is_ident(target[0]) || target[0] == ':');
    assert(text::is_ident(target[target.len() - 1]) || target[target.len() - 1] == ':');
    reveal_with_fuel(text::trim_start, 2);
    assert(post.skip(1) =~= said);
    assert(said[0] == target[0]);
    if after.len() == 0 {
        assert(said.last() == target[target.len() - 1]);
    } else {
        assert(said.last() == after.last());
    }
    assert(text::trim_start(post) == said);
    text::lemma_trim_plain(said);
    assert(text::trim(post) == said);
    lemma_path_run(target, after);
    assert(said.take(target.len() as int) =~= target);
}

proof fn lemma_one_equals()
    ensures
        "= sym"@.len() == 5,
        forall|i: int| 1 <= i < 5 ==> "= sym"@[i] != '=',
{
    reveal_strlit("= sym");
}

proof fn lemma_trailing(before: Seq<char>, name: Seq<char>)
    requires
        before.len() == 0 || !text::is_ident(before.last()),
        forall|i: int| 0 <= i < name.len() ==> text::is_ident(#[trigger] name[i]),
    ensures
        trailing_ident(before + name) == name,
    decreases name.len(),
{
    let s = before + name;
    if name.len() == 0 {
        assert(s =~= before);
        assert(trailing_ident(before) =~= name);
    } else {
        let front = name.drop_last();
        assert forall|i: int| 0 <= i < front.len() implies text::is_ident(#[trigger] front[i]) by {
            assert(front[i] == name[i]);
        }
        lemma_trailing(before, front);
        assert(s.drop_last() =~= before + front);
        assert(s.last() == name[name.len() - 1]);
        assert(front.push(s.last()) =~= name);
    }
}

proof fn lemma_path_run(a: Seq<char>, b: Seq<char>)
    requires
        forall|i: int| 0 <= i < a.len() ==> text::is_ident(#[trigger] a[i]) || a[i] == ':',
        b.len() == 0 || !(text::is_ident(b[0]) || b[0] == ':'),
    ensures
        path_run(a + b) == a.len(),
    decreases a.len(),
{
    let s = a + b;
    if a.len() == 0 {
        assert(s =~= b);
    } else {
        assert forall|i: int| 0 <= i < a.skip(1).len() implies text::is_ident(#[trigger] a.skip(1)[i])
            || a.skip(1)[i] == ':' by {
            assert(a.skip(1)[i] == a[i + 1]);
        }
        lemma_path_run(a.skip(1), b);
        assert(s.skip(1) =~= a.skip(1) + b);
        assert(s[0] == a[0]);
    }
}

/// A function begins with its keyword alone, or behind the words for the C interface, with or without
/// the one for what is not safe.
#[verifier::spinoff_prover]
#[verifier::rlimit(60)]
pub proof fn law_a_function_begins_with_its_keyword(rest: Seq<char>)
    ensures
        function_head("fn "@ + rest) == Some(rest),
        function_head("unsafe extern \"C\" fn "@ + rest) == Some(rest),
        function_head("extern \"C\" fn "@ + rest) == Some(rest),
{
    lemma_heads();
    let a = "fn "@ + rest;
    let b = "unsafe extern \"C\" fn "@ + rest;
    let c = "extern \"C\" fn "@ + rest;
    text::lemma_stands(Seq::empty(), "fn "@, rest);
    text::lemma_stands(Seq::empty(), "unsafe extern \"C\" fn "@, rest);
    text::lemma_stands(Seq::empty(), "extern \"C\" fn "@, rest);
    assert(a.skip("fn "@.len() as int) =~= rest);
    assert(b.skip("unsafe extern \"C\" fn "@.len() as int) =~= rest);
    assert(c.skip("extern \"C\" fn "@.len() as int) =~= rest);
    if text::starts_with(b, "fn "@) {
        assert(b.subrange(0, "fn "@.len() as int)[0] == b[0]);
    }
    if text::starts_with(c, "fn "@) {
        assert(c.subrange(0, "fn "@.len() as int)[0] == c[0]);
    }
    if text::starts_with(c, "unsafe extern \"C\" fn "@) {
        assert(c.subrange(0, "unsafe extern \"C\" fn "@.len() as int)[0] == c[0]);
    }
}

proof fn lemma_heads()
    ensures
        "fn "@.len() == 3 && "fn "@[0] == 'f',
        "unsafe extern \"C\" fn "@.len() > 0 && "unsafe extern \"C\" fn "@[0] == 'u',
        "extern \"C\" fn "@.len() > 0 && "extern \"C\" fn "@[0] == 'e',
{
    reveal_strlit("fn ");
    reveal_strlit("unsafe extern \"C\" fn ");
    reveal_strlit("extern \"C\" fn ");
}

} // verus!
