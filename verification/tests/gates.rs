use nitrox::deferrals::{markers_in_line, open_section_tags};
use nitrox::irq::{scope_binding, ScopeBinding};
use nitrox::transcript::echo_source;

fn m(name: &str) -> String {
    format!("{}{}{}{}{}", "TO", "DO", '(', name, ')')
}

const NO_CODE_SITE: &str = "<!-- check-deferrals: no-code-site -->";

#[test]
fn markers_in_line_finds_every_plain_word_marker_and_no_others() {
    assert_eq!(markers_in_line("nothing here"), Vec::<&str>::new());
    assert_eq!(markers_in_line(&format!("// {}", m("alpha"))), ["alpha"]);
    assert_eq!(
        markers_in_line(&format!("// {} and {}: see the doc.", m("alpha"), m("beta"))),
        ["alpha", "beta"]
    );
    assert_eq!(
        markers_in_line(&format!("// spelt {} not {}", m("<tag>"), m("tag"))),
        ["tag"]
    );
    assert_eq!(markers_in_line(&format!("// {}", m("has space"))), Vec::<&str>::new());
    assert_eq!(markers_in_line(&format!("// {}", m(""))), Vec::<&str>::new());
    assert_eq!(
        markers_in_line(&format!("// {}{}{}unclosed", "TO", "DO", '(')),
        Vec::<&str>::new()
    );
}

#[test]
fn open_section_tags_counts_open_entries_and_nothing_else() {
    let doc = format!(
        "# Deferred\n\
         **Thing one — `{alpha}`.** Words.\n\
         **Thing two — `{beta}`.** More words.\n\
         **Thing three — `{gamma}`.** No code site yet. {ncs}\n\
         **Two on one line — `{delta}` and `{epsilon}`.**\n\
         **Repeat — `{alpha}` again.**\n\
         **Cross-reference — also the trigger for `{theta}`.**\n\
         **The real one — `{theta}`.** No code site. {ncs}\n\
         **Not a tag — `{spaced}` and `{empty}`.**\n\
         \n## Resolved (kept for the record)\n\
         | Thing four (`{zeta}`) | closing it deleted its markers |\n\
         \n## How to use this document\n\
         Every `{eta}` must appear here.\n",
        alpha = m("alpha"),
        beta = m("beta"),
        gamma = m("gamma"),
        delta = m("delta"),
        epsilon = m("epsilon"),
        theta = m("theta"),
        spaced = m("has space"),
        empty = m(""),
        zeta = m("zeta"),
        eta = m("eta"),
        ncs = NO_CODE_SITE,
    );
    let got = open_section_tags(&doc);
    let names: Vec<&str> = got.iter().map(|(t, _)| t.as_str()).collect();
    assert_eq!(names, ["alpha", "beta", "gamma", "delta", "epsilon", "theta"]);
    let exempt: Vec<&str> = got.iter().filter(|(_, e)| *e).map(|(t, _)| t.as_str()).collect();
    assert_eq!(
        exempt,
        ["gamma", "theta"],
        "the no-code-site marker must be honoured wherever in the entry it appears"
    );
    assert!(!names.contains(&"zeta"), "a Resolved row's tag is not an open entry");
    assert!(!names.contains(&"eta"), "the closing section's prose is not an entry");
    assert!(!names.contains(&"has space"), "a tag must be a plain word");
    let all_open = open_section_tags(&format!("**One — `{}`.**\n", m("solo")));
    assert_eq!(all_open, vec![(String::from("solo"), false)]);
}

#[test]
fn echo_source_finds_a_pattern_the_guest_would_echo_back() {
    let none: [String; 0] = [];
    assert_eq!(echo_source(&none, "anything"), None);
    let one = [String::from("format(\"add={}\", sum)")];
    assert_eq!(echo_source(&one, "add=5"), None, "the answer is not in the command");
    assert_eq!(echo_source(&one, "sum"), Some("format(\"add={}\", sum)"));
    assert_eq!(echo_source(&one, ""), None);
    let two = [String::from("echo hello"), String::from("whoami")];
    assert_eq!(echo_source(&two, "hello"), Some("echo hello"));
    assert_eq!(echo_source(&two, "whoami"), Some("whoami"));
    assert_eq!(echo_source(&two, "alice"), None, "the answer is in neither command");
    let step14 = [String::from(
        "try { fail \"boom\" } catch (e) { format(\"caught={}\", e.message) }",
    )];
    assert!(echo_source(&step14, "boom").is_some(), "the old pattern must be refused");
    assert_eq!(echo_source(&step14, "caught=boom"), None, "the new one must be allowed");
}

#[test]
fn scope_binding_tells_a_held_guard_from_one_dropped_where_it_is_made() {
    for line in [
        "            let _lock_scope = crate::libkern::lockrank::enter_interrupt();",
        "let g = enter_interrupt();",
        "let mut g = enter_interrupt();",
        "let g: IrqScope = enter_interrupt();",
        "let mut g: IrqScope = enter_interrupt();",
    ] {
        assert_eq!(scope_binding(line), ScopeBinding::Held, "{line}");
    }
    assert_eq!(scope_binding("let _ = enter_interrupt();"), ScopeBinding::Discarded);
    assert_eq!(scope_binding("  let _   =   enter_interrupt();"), ScopeBinding::Discarded);
    assert_eq!(scope_binding("let _x = enter_interrupt();"), ScopeBinding::Held);
    assert_eq!(scope_binding("enter_interrupt();"), ScopeBinding::Temporary);
    assert_eq!(scope_binding("        enter_interrupt();"), ScopeBinding::Temporary);
    assert_eq!(scope_binding("/// calls enter_interrupt()"), ScopeBinding::Temporary);
}
