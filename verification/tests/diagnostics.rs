use nitrox::qmp::unescape_json_return;
use nitrox::symbols::{demangle, elf_function_symbols, resolve_symbol, ElfError, ElfSym};

#[test]
fn a_qmp_return_string_is_unescaped() {
    assert_eq!(unescape_json_return(r#"{"return": "a\nb"}"#), "a\nb");
    assert_eq!(unescape_json_return(r#"{"return": "he said \"hi\""}"#), "he said \"hi\"");
    assert_eq!(unescape_json_return(r#"{"return": "C:\\x"}"#), "C:\\x");
    assert_eq!(unescape_json_return(r#"{"return": ""}"#), "", "an empty monitor reply");
}

#[test]
fn a_reply_without_a_return_field_yields_nothing_rather_than_garbage() {
    assert_eq!(unescape_json_return(r#"{"error": {"class": "GenericError"}}"#), "");
    assert_eq!(unescape_json_return("not json at all"), "");
}

#[test]
fn demangling_recovers_a_rust_path() {
    assert_eq!(
        demangle("_ZN13nitrox_kernel5sched9idle_body17h08d8be4e35d6ac8aE"),
        "nitrox_kernel::sched::idle_body"
    );
}

#[test]
fn demangling_drops_the_llvm_suffix_and_the_hash() {
    assert_eq!(
        demangle("_ZN13nitrox_kernel7drivers4ahci12issue_locked17h0ddde3632e042bdcE.llvm.29"),
        "nitrox_kernel::drivers::ahci::issue_locked"
    );
}

#[test]
fn an_unmangled_or_v0_name_comes_back_unchanged() {
    assert_eq!(demangle("memcpy"), "memcpy");
    assert_eq!(demangle("_RNvNtCs1234_4core3fmt5write"), "_RNvNtCs1234_4core3fmt5write");
    assert_eq!(demangle("_ZN"), "_ZN", "truncated: not the shape we expect");
    assert_eq!(demangle("_ZNxyz"), "_ZNxyz", "no length prefix");
}

#[test]
fn a_symbol_is_resolved_only_inside_its_extent() {
    let syms = vec![
        ElfSym { addr: 0x1000, size: 0x40, name: "a".into() },
        ElfSym { addr: 0x2000, size: 0, name: "b".into() },
    ];
    assert_eq!(resolve_symbol(&syms, 0x1000).as_deref(), Some("a+0x0"));
    assert_eq!(resolve_symbol(&syms, 0x1020).as_deref(), Some("a+0x20"));
    assert_eq!(resolve_symbol(&syms, 0x1040), None);
    assert_eq!(resolve_symbol(&syms, 0x0), None, "below everything");
    assert_eq!(resolve_symbol(&syms, 0x2000).as_deref(), Some("b+0x0"));
    assert_eq!(resolve_symbol(&syms, 0x9999).as_deref(), Some("b+0x7999"));
}

fn tiny_elf() -> Vec<u8> {
    const SHOFF: usize = 0x100;
    const SHENT: usize = 64;
    let strtab: &[u8] = b"\0alpha\0beta\0notafunc\0";
    let stroff = 0x300usize;
    let symoff = 0x200usize;
    let mut b = vec![0u8; 0x400];
    b[..4].copy_from_slice(b"\x7fELF");
    b[4] = 2;
    b[0x28..0x30].copy_from_slice(&(SHOFF as u64).to_le_bytes());
    b[0x3A..0x3C].copy_from_slice(&(SHENT as u16).to_le_bytes());
    b[0x3C..0x3E].copy_from_slice(&2u16.to_le_bytes());
    let sh = SHOFF;
    b[sh + 4..sh + 8].copy_from_slice(&2u32.to_le_bytes());
    b[sh + 0x18..sh + 0x20].copy_from_slice(&(symoff as u64).to_le_bytes());
    b[sh + 0x20..sh + 0x28].copy_from_slice(&(24u64 * 3).to_le_bytes());
    b[sh + 0x28..sh + 0x2C].copy_from_slice(&1u32.to_le_bytes());
    let sh1 = SHOFF + SHENT;
    b[sh1 + 4..sh1 + 8].copy_from_slice(&3u32.to_le_bytes());
    b[sh1 + 0x18..sh1 + 0x20].copy_from_slice(&(stroff as u64).to_le_bytes());
    b[stroff..stroff + strtab.len()].copy_from_slice(strtab);
    let mut put_sym = |i: usize, nameoff: u32, info: u8, addr: u64, size: u64| {
        let e = symoff + i * 24;
        b[e..e + 4].copy_from_slice(&nameoff.to_le_bytes());
        b[e + 4] = info;
        b[e + 8..e + 16].copy_from_slice(&addr.to_le_bytes());
        b[e + 16..e + 24].copy_from_slice(&size.to_le_bytes());
    };
    // Two functions, out of order, and an object that is no function.
    put_sym(0, 1, 2, 0x2000, 0x10);
    put_sym(1, 7, 2, 0x1000, 0x20);
    put_sym(2, 12, 1, 0x3000, 0x8);
    b
}

#[test]
fn the_elf_walker_reads_func_symbols_sorted_and_skips_the_rest() {
    let syms = elf_function_symbols(&tiny_elf()).unwrap();
    let names: Vec<&str> = syms.iter().map(|s| s.name.as_str()).collect();
    assert_eq!(names, vec!["beta", "alpha"], "sorted by address, and only STT_FUNC");
    assert_eq!(syms[0].addr, 0x1000);
    assert_eq!(syms[1].size, 0x10);
    assert_eq!(resolve_symbol(&syms, 0x2008).as_deref(), Some("alpha+0x8"));
}

#[test]
fn a_non_elf_is_refused_rather_than_misparsed() {
    assert!(elf_function_symbols(b"#!/bin/sh\necho hi\n").is_err());
}

#[test]
fn an_elf_that_points_outside_itself_is_refused() {
    let mut b = tiny_elf();
    b[0x118..0x120].copy_from_slice(&0x10_0000u64.to_le_bytes());
    assert_eq!(elf_function_symbols(&b).unwrap().len(), 0, "a table outside ends at once");
    b[0x128..0x12C].copy_from_slice(&9999u32.to_le_bytes());
    assert_eq!(elf_function_symbols(&b).err(), Some(ElfError::OutOfBounds));
    assert_eq!(elf_function_symbols(&[0u8; 80]).err(), Some(ElfError::NotElf64));
}

#[test]
fn every_json_escape_is_undone() {
    let read = |s: &str| unescape_json_return(&format!("{{\"return\": \"{s}\"}}"));
    assert_eq!(unescape_json_return(r#"{"return": "\u0041B"}"#), "AB");
    assert_eq!(read(r"\r\n\t\b\f\/\\"), "\r\n\t\u{8}\u{c}/\\");
    assert_eq!(read(r"caf\u00e9 \u20AC"), "caf\u{e9} \u{20ac}");
    assert_eq!(read(r"\ud83d\ude00!"), "\u{1f600}!");
    assert_eq!(read(r"\uffff\ue000\ud7ff"), "\u{ffff}\u{e000}\u{d7ff}");
    assert_eq!(read(r"\ud83dx"), "?x", "a high half alone");
    assert_eq!(read(r"\ud83d\u0041"), "?A", "a high half without its low one");
    assert_eq!(read(r"\ude00x"), "?x", "a low half alone");
    assert_eq!(read(r"\u00g0x"), "?x", "no digits");
    assert_eq!(unescape_json_return(r#"{"return": "a\u12"#), "a?", "cut short");
}

#[test]
fn a_symbol_that_shares_its_address_is_resolved_by_its_extent() {
    let sym = |addr, size, name: &str| ElfSym { addr, size, name: name.into() };
    let syms = vec![sym(0x1000, 0x40, "a"), sym(0x1000, 0x10, "b")];
    assert_eq!(resolve_symbol(&syms, 0x1020).as_deref(), Some("a+0x20"));
    assert_eq!(resolve_symbol(&syms, 0x1008).as_deref(), Some("b+0x8"));
    assert_eq!(resolve_symbol(&syms, 0x1040), None);
    let inner = vec![sym(0x1000, 0x100, "outer"), sym(0x1010, 0x10, "inner")];
    assert_eq!(resolve_symbol(&inner, 0x1018).as_deref(), Some("inner+0x8"));
    assert_eq!(resolve_symbol(&inner, 0x1050), None, "behind the nearest function");
    assert_eq!(resolve_symbol(&inner, 0x1100), None);
    let label = vec![sym(0x1000, 0, "label"), sym(0x1010, 0x10, "f")];
    assert_eq!(resolve_symbol(&label, 0x1008).as_deref(), Some("label+0x8"));
    assert_eq!(resolve_symbol(&label, 0x1020), None, "a label reaches to the next symbol only");
}
