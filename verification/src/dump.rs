//! What the machine monitor shows of a guest that stopped answering: its processors, and what is
//! on their stacks.

use vstd::prelude::*;

use crate::number;
use crate::symbols;
use crate::symbols::ElfSym;
use crate::text;

verus! {

/// How many leading characters are hexadecimal digits.
pub open spec fn hex_run(s: Seq<char>) -> nat
    decreases s.len(),
{
    if s.len() > 0 && symbols::is_hex(s[0]) {
        1 + hex_run(s.skip(1))
    } else {
        0
    }
}

/// The number that the leading hexadecimal digits are.
pub open spec fn leading_hex(s: Seq<char>) -> Option<u64> {
    number::u64_of(s.take(hex_run(s) as int), 16)
}

/// `s` without its leading white space and equals signs.
pub open spec fn after_gap(s: Seq<char>) -> Seq<char>
    decreases s.len(),
{
    if s.len() > 0 && (text::is_space(s[0]) || s[0] == '=') {
        after_gap(s.skip(1))
    } else {
        s
    }
}

/// The register that stands behind `key` on the line.
pub open spec fn register(line: Seq<char>, key: Seq<char>) -> Option<u64> {
    match text::split_once(line, key) {
        Some((_, rest)) => leading_hex(after_gap(rest)),
        None => None,
    }
}

/// The instruction pointer on the line.
pub open spec fn instruction(line: Seq<char>) -> Option<u64> {
    match text::split_once(line, "RIP="@) {
        Some((_, rest)) => leading_hex(rest),
        None => None,
    }
}

/// A processor as the monitor shows it.
#[derive(Debug, Clone, Copy, PartialEq, Eq, Structural)]
pub struct Cpu {
    pub cpu: usize,
    pub rip: u64,
    pub rbx: u64,
    pub rsp: u64,
}

/// What has been read: the processor being shown, its last registers, and those shown so far.
pub struct Reading {
    pub cpu: usize,
    pub rbx: u64,
    pub rsp: u64,
    pub cpus: Seq<Cpu>,
}

/// What one more line adds. A line with an instruction pointer completes a processor.
pub open spec fn read_line(r: Reading, line: Seq<char>) -> Reading {
    let rbx = match register(line, "RBX="@) {
        Some(v) => v,
        None => r.rbx,
    };
    let rsp = match register(line, "RSP="@) {
        Some(v) => v,
        None => r.rsp,
    };
    let cpu = match text::strip_prefix(text::trim(line), "CPU#"@) {
        Some(rest) => match number::usize_of(text::trim(rest), 10) {
            Some(n) => n,
            None => r.cpu,
        },
        None => r.cpu,
    };
    let cpus = match instruction(line) {
        Some(rip) => r.cpus.push(Cpu { cpu, rip, rbx, rsp }),
        None => r.cpus,
    };
    Reading { cpu, rbx, rsp, cpus }
}

/// What the lines add up to.
pub open spec fn read_lines(ls: Seq<Seq<char>>) -> Reading
    decreases ls.len(),
{
    if ls.len() == 0 {
        Reading { cpu: 0, rbx: 0, rsp: 0, cpus: Seq::empty() }
    } else {
        read_line(read_lines(ls.drop_last()), ls.last())
    }
}

fn read_hex(s: &[char]) -> (r: Option<u64>)
    ensures
        r == leading_hex(s@),
{
    let mut i: usize = 0;
    assert(s@.skip(0) =~= s@);
    while i < s.len() && number::digit_of(s[i]) < 16
        invariant
            i <= s.len(),
            hex_run(s@) == i + hex_run(s@.skip(i as int)),
        decreases s.len() - i,
    {
        assert(s@.skip(i as int).skip(1) =~= s@.skip(i + 1));
        i = i + 1;
    }
    number::parse_u64(text::take(s, i), 16)
}

fn read_register(line: &[char], key: &str) -> (r: Option<u64>)
    ensures
        r == register(line@, key@),
{
    let (_, rest) = text::cut(line, key)?;
    let mut i: usize = 0;
    assert(rest@.skip(0) =~= rest@);
    while i < rest.len() && (text::space(rest[i]) || rest[i] == '=')
        invariant
            i <= rest.len(),
            after_gap(rest@) == after_gap(rest@.skip(i as int)),
        decreases rest.len() - i,
    {
        assert(rest@.skip(i as int).skip(1) =~= rest@.skip(i + 1));
        i = i + 1;
    }
    read_hex(text::skip(rest, i))
}

/// The processors in the monitor's register dump.
pub fn processors(dump: &str) -> (r: Vec<Cpu>)
    ensures
        r@ == read_lines(text::lines(dump@)).cpus,
{
    let c = text::chars_of(dump);
    let ls = text::lines_of(c.as_slice());
    let ghost all = text::lines(dump@);
    let mut cpu: usize = 0;
    let mut rbx: u64 = 0;
    let mut rsp: u64 = 0;
    let mut out: Vec<Cpu> = Vec::new();
    let mut i: usize = 0;
    while i < ls.len()
        invariant
            i <= ls.len(),
            all == text::views(ls@),
            ({
                let r = read_lines(all.take(i as int));
                r.cpu == cpu && r.rbx == rbx && r.rsp == rsp && r.cpus == out@
            }),
        decreases ls.len() - i,
    {
        assert(all.take(i + 1).drop_last() =~= all.take(i as int));
        assert(all.take(i + 1).last() == ls[i as int]@);
        let line = ls[i];
        match read_register(line, "RBX=") {
            Some(v) => {
                rbx = v;
            },
            None => {},
        }
        match read_register(line, "RSP=") {
            Some(v) => {
                rsp = v;
            },
            None => {},
        }
        match text::after_prefix(text::trimmed(line), "CPU#") {
            Some(rest) => match number::parse_usize(text::trimmed(rest), 10) {
                Some(n) => {
                    cpu = n;
                },
                None => {},
            },
            None => {},
        }
        match text::cut(line, "RIP=") {
            Some((_, rest)) => match read_hex(rest) {
                Some(rip) => {
                    out.push(Cpu { cpu, rip, rbx, rsp });
                },
                None => {},
            },
            None => {},
        }
        i = i + 1;
    }
    assert(all.take(i as int) =~= all);
    out
}

/// The lowest address of the kernel.
pub const KERNEL_BASE: u64 = 0xFFFF_8000_0000_0000;

/// Where an address is: the symbol it lies in, else which side of the kernel's base it is on.
pub open spec fn place(syms: Seq<symbols::Sym>, addr: u64) -> Seq<char> {
    match symbols::resolved(syms, addr) {
        Some(s) => s,
        None => if addr >= KERNEL_BASE {
            "<kernel, no symbol>"@
        } else {
            "<userspace>"@
        },
    }
}

/// Where an address is.
pub fn place_of(syms: &[ElfSym], addr: u64) -> (r: String)
    requires
        symbols::by_address(symbols::syms(syms@)),
    ensures
        r@ == place(symbols::syms(syms@), addr),
{
    match symbols::resolve_symbol(syms, addr) {
        Some(s) => s,
        None => if addr >= KERNEL_BASE {
            String::from_str("<kernel, no symbol>")
        } else {
            String::from_str("<userspace>")
        },
    }
}

/// The words on a line of a memory dump, `address: 0xword 0xword`.
pub open spec fn memory_words(ws: Seq<Seq<char>>) -> Seq<u64>
    decreases ws.len(),
{
    if ws.len() == 0 {
        Seq::empty()
    } else {
        let front = memory_words(ws.drop_last());
        match text::strip_prefix(ws.last(), "0x"@) {
            Some(hex) => match number::u64_of(hex, 16) {
                Some(v) => front.push(v),
                None => front,
            },
            None => front,
        }
    }
}

/// The words of a memory dump, in order.
pub open spec fn dump_words(ls: Seq<Seq<char>>) -> Seq<u64>
    decreases ls.len(),
{
    if ls.len() == 0 {
        Seq::empty()
    } else {
        let front = dump_words(ls.drop_last());
        match text::split_once(ls.last(), ":"@) {
            Some((_, words)) => front + memory_words(text::words(words)),
            None => front,
        }
    }
}

/// The words of a memory dump, in order.
pub fn stack_words(dump: &str) -> (r: Vec<u64>)
    ensures
        r@ == dump_words(text::lines(dump@)),
{
    let c = text::chars_of(dump);
    let ls = text::lines_of(c.as_slice());
    let ghost all = text::lines(dump@);
    let mut out: Vec<u64> = Vec::new();
    let mut i: usize = 0;
    while i < ls.len()
        invariant
            i <= ls.len(),
            all == text::views(ls@),
            out@ == dump_words(all.take(i as int)),
        decreases ls.len() - i,
    {
        assert(all.take(i + 1).drop_last() =~= all.take(i as int));
        assert(all.take(i + 1).last() == ls[i as int]@);
        match text::cut(ls[i], ":") {
            Some((_, words)) => {
                let ws = text::words_of(words);
                let ghost wv = text::views(ws@);
                let ghost start = out@;
                let mut k: usize = 0;
                assert(start + memory_words(wv.take(0)) =~= start);
                while k < ws.len()
                    invariant
                        k <= ws.len(),
                        wv == text::views(ws@),
                        out@ == start + memory_words(wv.take(k as int)),
                    decreases ws.len() - k,
                {
                    assert(wv.take(k + 1).drop_last() =~= wv.take(k as int));
                    assert(wv.take(k + 1).last() == ws[k as int]@);
                    match text::after_prefix(ws[k], "0x") {
                        Some(hex) => match number::parse_u64(hex, 16) {
                            Some(v) => {
                                out.push(v);
                            },
                            None => {},
                        },
                        None => {},
                    }
                    k = k + 1;
                    assert(out@ =~= start + memory_words(wv.take(k as int)));
                }
                assert(wv.take(k as int) =~= wv);
            },
            None => {},
        }
        i = i + 1;
    }
    assert(all.take(i as int) =~= all);
    out
}

/// How many symbols of a stack are shown.
pub const SHOWN: usize = 12;

/// The symbols that the words lie in, in order.
pub open spec fn names(syms: Seq<symbols::Sym>, words: Seq<u64>) -> Seq<Seq<char>>
    decreases words.len(),
{
    if words.len() == 0 {
        Seq::empty()
    } else {
        match symbols::resolved(syms, words.last()) {
            Some(s) => names(syms, words.drop_last()).push(s),
            None => names(syms, words.drop_last()),
        }
    }
}

/// The symbols that are shown of them.
pub open spec fn shown(syms: Seq<symbols::Sym>, words: Seq<u64>) -> Seq<Seq<char>> {
    let n = names(syms, words);
    if n.len() > SHOWN {
        n.take(SHOWN as int)
    } else {
        n
    }
}

/// Whether a processor's stack can be walked: there are symbols to name its words by, and its pointer
/// is known.
pub fn has_stack(symbols: usize, rsp: u64) -> (r: bool)
    ensures
        r == (symbols > 0 && rsp != 0),
{
    symbols > 0 && rsp != 0
}

/// The first symbols that the words of a stack dump lie in.
pub fn stack_trace(dump: &str, syms: &[ElfSym]) -> (r: Vec<String>)
    requires
        symbols::by_address(symbols::syms(syms@)),
    ensures
        text::strs(r@) == shown(symbols::syms(syms@), dump_words(text::lines(dump@))),
{
    let ghost sv = symbols::syms(syms@);
    let ws = stack_words(dump);
    let mut out: Vec<String> = Vec::new();
    let mut i: usize = 0;
    assert(text::strs(out@) =~= names(sv, ws@.take(0)));
    while i < ws.len() && out.len() < SHOWN
        invariant
            i <= ws.len(),
            out.len() <= SHOWN,
            sv == symbols::syms(syms@),
            symbols::by_address(sv),
            text::strs(out@) == names(sv, ws@.take(i as int)),
        decreases ws.len() - i,
    {
        assert(ws@.take(i + 1).drop_last() =~= ws@.take(i as int));
        match symbols::resolve_symbol(syms, ws[i]) {
            Some(s) => {
                proof {
                    text::lemma_strs_push(out@, s);
                }
                out.push(s);
            },
            None => {},
        }
        i = i + 1;
    }
    proof {
        assert(text::strs(out@).len() == out.len());
        lemma_names_prefix(sv, ws@, i as int);
        let n = names(sv, ws@);
        if out.len() == SHOWN {
            assert(text::strs(out@) =~= n.take(SHOWN as int));
            if n.len() == SHOWN {
                assert(n.take(SHOWN as int) =~= n);
            }
        } else {
            assert(ws@.take(i as int) =~= ws@);
        }
    }
    out
}

proof fn lemma_names_prefix(syms: Seq<symbols::Sym>, words: Seq<u64>, k: int)
    requires
        0 <= k <= words.len(),
    ensures
        names(syms, words.take(k)).len() <= names(syms, words).len(),
        names(syms, words).take(names(syms, words.take(k)).len() as int) == names(
            syms,
            words.take(k),
        ),
    decreases words.len(),
{
    let front = names(syms, words.take(k));
    if k == words.len() {
        assert(words.take(k) =~= words);
        assert(front.take(front.len() as int) =~= front);
    } else {
        assert(words.drop_last().take(k) =~= words.take(k));
        lemma_names_prefix(syms, words.drop_last(), k);
        let mid = names(syms, words.drop_last());
        assert(names(syms, words).take(front.len() as int) =~= mid.take(front.len() as int));
    }
}

proof fn lemma_hex_run(a: Seq<char>, b: Seq<char>)
    requires
        forall|i: int| 0 <= i < a.len() ==> symbols::is_hex(#[trigger] a[i]),
        b.len() == 0 || !symbols::is_hex(b[0]),
    ensures
        hex_run(a + b) == a.len(),
    decreases a.len(),
{
    let s = a + b;
    if a.len() == 0 {
        assert(s =~= b);
    } else {
        assert forall|i: int| 0 <= i < a.skip(1).len() implies symbols::is_hex(#[trigger] a.skip(1)[i]) by {
            assert(a.skip(1)[i] == a[i + 1]);
        }
        lemma_hex_run(a.skip(1), b);
        assert(s.skip(1) =~= a.skip(1) + b);
        assert(s[0] == a[0]);
    }
}

/// A hexadecimal number is read up to what is no digit of it.
pub proof fn law_a_hexadecimal_number_is_read(v: u64, after: Seq<char>)
    requires
        after.len() == 0 || number::digit_value(after[0]) >= 16,
    ensures
        leading_hex(number::numeral(v as nat, 16) + after) == Some(v),
        symbols::is_hex(number::numeral(v as nat, 16)[0]),
        number::numeral(v as nat, 16).len() > 0,
{
    let d = number::numeral(v as nat, 16);
    number::law_numeral_reads_back(v as nat, 16);
    assert(number::digit_value(d[0]) < 16);
    assert forall|i: int| 0 <= i < d.len() implies symbols::is_hex(#[trigger] d[i]) by {
        assert(number::digit_value(d[i]) < 16);
    }
    lemma_hex_run(d, after);
    assert((d + after).take(d.len() as int) =~= d);
}

/// A register is read behind its name, wherever on the line that first stands, and where its name does
/// not stand nothing is read.
#[verifier::spinoff_prover]
#[verifier::rlimit(60)]
pub proof fn law_a_register_is_read(before: Seq<char>, key: Seq<char>, v: u64, after: Seq<char>)
    requires
        key.len() > 0,
        text::find(before + key, key) == Some(before.len() as int),
        after.len() == 0 || number::digit_value(after[0]) >= 16,
    ensures
        register(before + key + (number::numeral(v as nat, 16) + after), key) == Some(v),
        key == "RIP="@ ==> instruction(before + key + (number::numeral(v as nat, 16) + after)) == Some(v),
        forall|line: Seq<char>|
            !text::contains(line, key) ==> #[trigger] register(line, key) is None,
{
    let rest = number::numeral(v as nat, 16) + after;
    law_a_hexadecimal_number_is_read(v, after);
    text::lemma_cut_first(before, key, rest);
    assert(rest[0] == number::numeral(v as nat, 16)[0]);
    assert(after_gap(rest) == rest);
    assert forall|line: Seq<char>| !text::contains(line, key) implies #[trigger] register(line, key) is None by {
        text::lemma_find(line, key);
    }
}

/// A line with an instruction pointer completes the processor that is being shown, with the registers
/// that it was last shown with; no other line completes one, and none is lost.
pub proof fn law_an_instruction_completes_its_processor(r: Reading, line: Seq<char>)
    ensures
        ({
            let t = read_line(r, line);
            &&& match instruction(line) {
                Some(rip) => t.cpus == r.cpus.push(Cpu { cpu: t.cpu, rip, rbx: t.rbx, rsp: t.rsp }),
                None => t.cpus == r.cpus,
            }
            &&& register(line, "RBX="@) matches Some(v) ==> t.rbx == v
            &&& register(line, "RBX="@) is None ==> t.rbx == r.rbx
            &&& register(line, "RSP="@) matches Some(v) ==> t.rsp == v
            &&& register(line, "RSP="@) is None ==> t.rsp == r.rsp
        }),
{
}

/// A processor's own line says which one is shown from there on.
#[verifier::spinoff_prover]
#[verifier::rlimit(40)]
pub proof fn law_a_processors_line_names_it(r: Reading, n: usize, line: Seq<char>)
    ensures
        read_line(r, "CPU#"@ + number::numeral(n as nat, 10)).cpu == n,
        !text::starts_with(text::trim(line), "CPU#"@) ==> read_line(r, line).cpu == r.cpu,
{
    assert("CPU#"@.len() == 4 && "CPU#"@[0] == 'C') by {
        reveal_strlit("CPU#");
    }
    let d = number::numeral(n as nat, 10);
    number::law_numeral_reads_back(n as nat, 10);
    assert(number::digit_value(d[0]) < 10);
    assert(number::digit_value(d[d.len() - 1]) < 10);
    let l = "CPU#"@ + d;
    assert(l.last() == d[d.len() - 1]);
    text::lemma_trim_plain(l);
    text::lemma_trim_plain(d);
    text::lemma_stands(Seq::empty(), "CPU#"@, d);
    assert(l.skip(4) =~= d);
    assert(text::strip_prefix(text::trim(l), "CPU#"@) == Some(d));
    assert(number::usize_of(text::trim(d), 10) == Some(n));
}

/// The words of a dump are those of its lines, in order: on a line, each hexadecimal number behind the
/// address and its colon.
#[verifier::spinoff_prover]
#[verifier::rlimit(60)]
pub proof fn law_every_word_of_a_dump_is_read(ls: Seq<Seq<char>>, address: Seq<char>, words: Seq<char>, ws: Seq<Seq<char>>, v: u64)
    requires
        text::lacks(address, ':'),
    ensures
        dump_words(ls.push(address + ":"@ + words)) == dump_words(ls) + memory_words(text::words(words)),
        dump_words(ls.push(address)) == dump_words(ls),
        dump_words(Seq::empty()).len() == 0,
        memory_words(ws.push("0x"@ + number::numeral(v as nat, 16))) == memory_words(ws).push(v),
{
    reveal_strlit(":");
    let line = address + ":"@ + words;
    text::lemma_cut(address, ":"@, words);
    text::lemma_lacking(address, ":"@, 0);
    assert(ls.push(line).drop_last() =~= ls);
    assert(ls.push(address).drop_last() =~= ls);
    let d = number::numeral(v as nat, 16);
    let w = "0x"@ + d;
    number::law_numeral_reads_back(v as nat, 16);
    assert(number::digit_value(d[0]) < 16);
    text::lemma_stands(Seq::empty(), "0x"@, d);
    assert(w.skip("0x"@.len() as int) =~= d);
    assert(ws.push(w).drop_last() =~= ws);
}

/// The names of a stack's words are shown in order, twelve at most, and a word without a symbol is
/// passed over.
pub proof fn law_the_first_names_are_shown(syms: Seq<symbols::Sym>, words: Seq<u64>, w: u64)
    ensures
        shown(syms, words).len() <= 12,
        shown(syms, words) == names(syms, words).take(shown(syms, words).len() as int),
        names(syms, words).len() <= 12 ==> shown(syms, words) == names(syms, words),
        names(syms, words).len() > 12 ==> shown(syms, words).len() == 12,
        symbols::resolved(syms, w) matches Some(s) ==> names(syms, words.push(w)) == names(syms, words).push(
            s,
        ),
        symbols::resolved(syms, w) is None ==> names(syms, words.push(w)) == names(syms, words),
{
    assert(words.push(w).drop_last() =~= words);
    let n = names(syms, words);
    assert(n.take(n.len() as int) =~= n);
}

/// An address without a symbol is the kernel's in the upper half of the address space and userspace's
/// in the lower.
pub proof fn law_an_address_lies_on_one_side(syms: Seq<symbols::Sym>, addr: u64)
    requires
        symbols::resolved(syms, addr) is None,
    ensures
        addr < 0xFFFF_8000_0000_0000 ==> place(syms, addr) == "<userspace>"@,
        addr >= 0xFFFF_8000_0000_0000 ==> place(syms, addr) == "<kernel, no symbol>"@,
{
}

} // verus!
