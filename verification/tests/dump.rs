use nitrox::dump::{has_stack, place_of, processors, stack_trace, stack_words, Cpu};
use nitrox::symbols::ElfSym;

const REGISTERS: &str = "\
CPU#0
RAX=0000000000000000 RBX=00000000000000aa RCX=0
RSI=0 RDI=0 RBP=0 RSP=ffff800000001000
RIP=ffff800000002008 RFL=00000202
CPU#1
RAX=0 RBX = 00bb
RIP=0000000000401000 RFL=00000202
";

#[test]
fn each_processor_is_read_with_its_registers() {
    let cpus = processors(REGISTERS);
    assert_eq!(
        cpus,
        vec![
            Cpu { cpu: 0, rip: 0xffff_8000_0000_2008, rbx: 0xaa, rsp: 0xffff_8000_0000_1000 },
            Cpu { cpu: 1, rip: 0x40_1000, rbx: 0xaa, rsp: 0xffff_8000_0000_1000 },
        ],
        "a register that is not shown keeps its last value"
    );
}

#[test]
fn an_address_is_placed_by_symbol_or_by_side() {
    let syms = vec![ElfSym { addr: 0xffff_8000_0000_2000, size: 0x10, name: "idle".into() }];
    assert_eq!(place_of(&syms, 0xffff_8000_0000_2008), "idle+0x8");
    assert_eq!(place_of(&syms, 0xffff_8000_0000_3000), "<kernel, no symbol>");
    assert_eq!(place_of(&syms, 0x40_1000), "<userspace>");
}

#[test]
fn a_stack_shows_its_first_symbols() {
    let dump = "1000: 0x0000000000002004 0x1\nnothing here\n1010: 0x2008 word 0xzz\n";
    assert_eq!(stack_words(dump), vec![0x2004, 1, 0x2008]);
    let syms = vec![ElfSym { addr: 0x2000, size: 0x10, name: "f".into() }];
    assert_eq!(stack_trace(dump, &syms), vec!["f+0x4", "f+0x8"]);
    let many = format!("0:{}", " 0x2004".repeat(20));
    assert_eq!(stack_trace(&many, &syms).len(), 12);
}

#[test]
fn a_stack_is_walked_where_it_can_be_named() {
    assert!(has_stack(1, 0x1000));
    assert!(!has_stack(0, 0x1000));
    assert!(!has_stack(1, 0));
}
