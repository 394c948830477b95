use nitrox::abi::{
    check_kerror_decode_table, compare_family, compare_pair, extract_consts, extract_named, family,
    pair, parse_int, AbiShape, DecodeFault, Family, Mismatch, Pair, Undecoded, FAMILIES, PAIRS,
};
use nitrox::deferrals::{check_deferrals, compare, distinct_tags, scan_source, Site};
use nitrox::irq::{check_irq_scope, scan_file, IrqFault, ScopeBinding};
use nitrox::lints::{arch_lines, nightly_lines};
use nitrox::tables::{
    all_parsed, compare_tables, doc_rows, error_rows, syscall_rows, Row, TableFault,
};

#[test]
fn an_integer_literal_is_read() {
    assert_eq!(parse_int(" 1_000; "), Some(1000));
    assert_eq!(parse_int("0xFF_u"), None);
    assert_eq!(parse_int("0xdead_beef,"), Some(0xdead_beef));
    assert_eq!(parse_int("0X10"), Some(16));
    assert_eq!(parse_int("-5"), Some(-5));
    assert_eq!(parse_int(""), None);
}

#[test]
fn constants_are_read_in_each_shape() {
    let all = |t: &str, s| {
        let t = extract_consts(t, s);
        (0..t.len()).map(|i| (t.name(i).to_string(), *t.value(i))).collect::<Vec<_>>()
    };
    let one = |n: &str, v| vec![(n.to_string(), v)];
    assert_eq!(
        all("pub const A: u64 = 0x10;\n// pub const B: u64 = 1;\npub const C: u32 = 2;", AbiShape::U64Const),
        one("A", 16)
    );
    assert_eq!(all("  Small = -3,\n  small = 4,\n  Big = 5", AbiShape::EnumVariant), one("Small", -3));
    assert_eq!(
        all("pub const READ: Rights = Rights(1 << 4);", AbiShape::RightsBit),
        one("READ", 16)
    );
    assert_eq!(
        all("pub const K: u16 = 30;\npub const V: i32 = -1;", AbiShape::U16Const),
        vec![("K".to_string(), 30), ("V".to_string(), -1)]
    );
    assert_eq!(extract_named("pub const MAX: usize = 64;", "MAX"), Some(64));
    assert_eq!(extract_named("pub const MAX: usize = 64;", "MA"), None);
}

#[test]
fn a_family_is_compared_name_by_name() {
    let kernel = "pub const A: u64 = 1;\npub const B: u64 = 2;\npub const C: u64 = 3;\npub const D: u64 = 4;";
    let user = "pub const A: u64 = 1;\npub const B: u64 = 7;";
    match compare_family(kernel, user, AbiShape::U64Const, &vec!["D".to_string()]) {
        Family::Compared { agree, problems } => {
            assert_eq!(agree, 1);
            assert_eq!(problems.len(), 2);
            assert!(matches!(&problems[0], Mismatch::Differs { name, kernel: 2, user: 7 } if name == "B"));
            assert!(matches!(&problems[1], Mismatch::Missing { name } if name == "C"));
        }
        other => panic!("{other:?}"),
    }
    assert!(matches!(
        compare_family("", user, AbiShape::U64Const, &vec![]),
        Family::Stale
    ));
}

#[test]
fn a_name_that_userspace_alone_has_is_a_problem() {
    let kernel = "pub const A: u64 = 1;";
    let user = "pub const A: u64 = 1;\npub const X: u64 = 8;\npub const Y: u64 = 9;";
    match compare_family(kernel, user, AbiShape::U64Const, &vec!["Y".to_string()]) {
        Family::Compared { agree, problems } => {
            assert_eq!(agree, 1);
            assert_eq!(problems.len(), 1);
            assert!(matches!(&problems[0], Mismatch::Unknown { name } if name == "X"));
        }
        other => panic!("{other:?}"),
    }
}

#[test]
fn a_later_declaration_wins() {
    let (a, b) = ("A = 1,\nB = 2,\r", "B = 3,\nC = 4,");
    let t = extract_consts(&format!("{a}\n{b}"), AbiShape::EnumVariant);
    let all: Vec<(&str, i128)> = (0..t.len()).map(|i| (t.name(i), *t.value(i))).collect();
    assert_eq!(all, [("A", 1), ("B", 3), ("C", 4)]);
}

#[test]
fn a_declaration_that_is_not_read_is_noticed() {
    let (rows, declared) = syscall_rows("pub const SYS_A: u64 = 1;\npub const SYS_B: u64 = one;");
    assert!(!all_parsed(declared, rows.len()));
    assert!(all_parsed(2, 2));
}

#[test]
fn the_families_and_pairs_name_their_files() {
    assert_eq!((FAMILIES, PAIRS), (5, 2));
    assert_eq!(family(0).one_sided, ["SYS_TEST_EXIT"]);
    assert_eq!(family(2).shape, AbiShape::RightsBit);
    assert_eq!(family(4).what, "KObjectType discriminants");
    assert_eq!(pair(1).1, "IPC_HANDLE_MAX");
    assert_eq!(compare_pair(Some(1), Some(1)), Pair::Agree);
    assert_eq!(compare_pair(Some(1), Some(2)), Pair::Differ(1, 2));
    assert_eq!(compare_pair(None, Some(2)), Pair::KernelUnread);
    assert_eq!(compare_pair(Some(1), None), Pair::UserUnread);
}

#[test]
fn every_error_code_decodes_to_its_variant() {
    let kernel = "    Io = -1,\n    Busy = -2,\n";
    let good = "    -1 => KError::Io,\n    -2 => KError::Busy,\n    _ => KError::Io,";
    assert!(matches!(check_kerror_decode_table(kernel, good), Ok(2)));
    assert!(matches!(check_kerror_decode_table("", good), Err(DecodeFault::NoVariants)));
    assert!(matches!(check_kerror_decode_table(kernel, ""), Err(DecodeFault::NoArms)));
    match check_kerror_decode_table(kernel, "-1 => KError::Busy,") {
        Err(DecodeFault::Undecoded(v)) => {
            assert!(matches!(&v[0], Undecoded::NoArm { name, value: -2 } if name == "Busy"));
            assert!(matches!(&v[1], Undecoded::Wrong { name, mapped, .. } if name == "Io" && mapped == "Busy"));
        }
        other => panic!("{other:?}"),
    }
}

fn marker(tag: &str) -> String {
    format!("TO{}({tag})", "DO")
}

fn site(line: usize, tag: &str) -> Site {
    Site { path: "a.rs".to_string(), line, tag: tag.to_string() }
}

#[test]
fn a_source_files_markers_are_found_on_their_lines() {
    let source = format!("fn f() {{}}\n// {} and {}\n", marker("one"), marker("two"));
    assert_eq!(scan_source(&source), [(2, "one".to_string()), (2, "two".to_string())]);
}

#[test]
fn markers_and_entries_have_to_agree() {
    let doc = format!("## Open\n\n- **{}** it waits\n- **{}** nothing\n", marker("a"), marker("b"));
    let r = check_deferrals(&doc, &vec![site(3, "A"), site(9, "c")]);
    assert_eq!(r.unrecorded, [1], "the case of a name does not matter");
    assert_eq!(r.unbacked, ["b"]);
    assert_eq!((r.open, r.exempt), (2, 0));
    assert_eq!(compare(&doc, "", &vec![site(3, "A")]).unrecorded, [0]);
    let accented = format!("\u{c9}tat: {}", marker("A"));
    assert_eq!(check_deferrals(&accented, &vec![site(3, "a")]).unrecorded, [0usize; 0]);
    assert_eq!(distinct_tags(&vec![site(1, "a"), site(2, "A"), site(3, "a")]), 2);
}

#[test]
fn a_line_that_asks_for_nightly_is_found() {
    assert_eq!(nightly_lines("a\n#![feature(x)]\n// #![feature(y)]\n"), [2]);
    assert_eq!(
        arch_lines("use arch::x86_64::a;\n// arch::aarch64\nx(); arch::aarch64::b(); // y"),
        [1, 3]
    );
}

const STUB: &str = "    dispatch = sym on_timer,";

fn macro_with(binding: &str) -> String {
    format!("macro_rules! irq_dispatcher {{\n    x {{\n        {binding}\n    }}\n}}\n")
}

#[test]
fn a_file_is_scanned_for_interrupt_entries() {
    let source = format!(
        "{}irq_dispatcher! {{\n    fn on_timer(frame) {{\n}}\n}}\n{STUB}\nfn on_fault() {{\n    assert_user_entry_safe();\n}}\n    other = sym crate::thing,\n",
        macro_with("let _scope = enter_interrupt();")
    );
    let f = scan_file(&source);
    assert_eq!(f.called, [(10, "on_timer".to_string())]);
    assert_eq!(f.generated, ["on_timer"]);
    assert_eq!(f.user_entry, ["on_fault"]);
    assert_eq!(f.stray, [(14, "other".to_string(), "crate::thing".to_string())]);
    assert_eq!(f.macros, [(1, Some(ScopeBinding::Held))]);
}

#[test]
fn every_entry_needs_its_scope() {
    let good = format!(
        "{}irq_dispatcher! {{\n    fn on_timer(frame) {{\n}}\n{}",
        macro_with("let _scope = enter_interrupt();"),
        format!("{STUB}\n").repeat(7)
    );
    assert_eq!(check_irq_scope(&vec![scan_file(&good)]), []);
    assert_eq!(check_irq_scope(&vec![]), [IrqFault::NoStubs, IrqFault::NoMacro, IrqFault::WrongCount(0)]);
    let faults = |s: String| check_irq_scope(&vec![scan_file(&s)]);
    assert!(faults(good.replace("macro_rules! irq_dispatcher", "")).contains(&IrqFault::NoMacro));
    let bound = |b: &str| faults(good.replace("let _scope = enter_interrupt();", b));
    assert_eq!(bound("nothing();"), [IrqFault::NoScope { file: 0, item: 0 }]);
    assert_eq!(bound("let _ = enter_interrupt();"), [IrqFault::Discarded { file: 0, item: 0 }]);
    assert_eq!(bound("enter_interrupt();"), [IrqFault::Temporary { file: 0, item: 0 }]);
    assert!(faults(format!("{good}{STUB}\n")).contains(&IrqFault::WrongCount(8)));
    assert!(faults(format!("{good}    other = sym thing,\n"))
        .contains(&IrqFault::Stray { file: 0, item: 0 }));
    let f = faults(good.replace("fn on_timer", "fn on_other"));
    assert!(f.contains(&IrqFault::Unscoped { file: 0, item: 6 }));
}

fn row(number: i64, name: &str) -> Row {
    Row { number, name: name.to_string() }
}

fn shown(v: &[Row]) -> Vec<(i64, &str)> {
    v.iter().map(|r| (r.number, r.name.as_str())).collect()
}

#[test]
fn the_sources_tables_are_read() {
    let (calls, declared) =
        syscall_rows("pub const SYS_OPEN: u64 = 0x10;\n  pub const SYS_BAD: u64 = x;\nconst SYS_NO: u64 = 1;");
    assert_eq!(shown(&calls), [(16, "sys_open")]);
    assert_eq!(declared, 2);
    let errors = error_rows("A = 1,\npub enum KError {\n    Io = -1,\n    Not Me = 2,\n}\nB = 3,");
    assert_eq!(shown(&errors), [(-1, "Io")]);
}

#[test]
fn the_documents_tables_are_read() {
    let doc = "- `sys_open(path)` is `0x10`\n| `-1` | `Io` | x |\n| no | Row |\n";
    assert_eq!(shown(&doc_rows(doc, true)), [(16, "sys_open"), (-1, "Io")]);
    assert_eq!(shown(&doc_rows(doc, false)), [(-1, "Io")]);
}

#[test]
fn tables_are_compared_in_order() {
    let c = compare_tables(
        vec![row(3, "c"), row(1, "a"), row(2, "b")],
        vec![row(2, "x"), row(1, "a"), row(9, "z")],
    );
    assert_eq!(shown(&c.source), [(1, "a"), (2, "b"), (3, "c")]);
    assert_eq!(shown(&c.doc), [(1, "a"), (2, "x"), (9, "z")]);
    assert!(!c.vacuous);
    assert_eq!(
        c.faults,
        [TableFault::Renamed(1, 1), TableFault::Undocumented(2), TableFault::Undefined(2)]
    );
    let c = compare_tables(vec![row(1, "a")], vec![]);
    assert!(c.vacuous && c.faults.is_empty());
}
