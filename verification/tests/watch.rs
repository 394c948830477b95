use nitrox::interactive::{interactive_part, part_steps, PARTS, STEPS};
use nitrox::script::Act;
use nitrox::watch::{Wait, Watch};

fn strings(v: &[&str]) -> Vec<String> {
    v.iter().map(|s| s.to_string()).collect()
}

#[test]
fn a_match_is_consumed() {
    let mut w = Watch::new();
    w.feed(b"boot: ok\nshell> ok");
    assert!(w.see("ok"));
    assert!(w.see("ok"));
    assert!(!w.see("ok"));
    assert!(!w.see("boot"));
}

#[test]
fn an_unordered_wait_takes_both_orders_and_ends_behind_the_last() {
    for text in ["one two rest\n", "two one rest\n"] {
        let mut w = Watch::new();
        w.feed(text.as_bytes());
        assert!(w.see_all(&strings(&["one", "two"])));
        assert_eq!(w.rest_of_line().as_deref(), Some("rest"));
    }
    let mut w = Watch::new();
    w.feed(b"one");
    let pats = strings(&["one", "two", "three"]);
    assert!(!w.see_all(&pats));
    assert_eq!(w.missing(&pats), vec![1, 2]);
    assert!(w.see("one"), "nothing was consumed");
}

#[test]
fn the_rest_of_a_line_waits_for_its_end() {
    let mut w = Watch::new();
    w.feed(b"window  12 at 3,4 ");
    assert!(w.see("window"));
    assert_eq!(w.rest_of_line(), None);
    w.feed(b" \nmore");
    assert_eq!(w.rest_of_line().as_deref(), Some("12 at 3,4"));
}

#[test]
fn what_was_typed_is_refused_until_something_is_seen() {
    let mut w = Watch::new();
    w.type_line("echo hello");
    assert_eq!(w.echo_of("hello").as_deref(), Some("echo hello"));
    assert_eq!(w.echo_of("answer"), None);
    w.feed(b"answer");
    assert!(w.see("answer"));
    assert_eq!(w.echo_of("hello"), None);
}

#[test]
fn a_silent_guest_is_told_from_one_that_spoke() {
    let mut w = Watch::new();
    w.feed(b" \r\n");
    assert!(w.is_silent());
    w.feed("é€ done".as_bytes());
    assert!(!w.is_silent());
    assert_eq!(w.tail(4), "done");
    assert_eq!(w.tail(6), "€ done");
    w.skip_to_end();
    assert!(!w.see("done"));
}

#[test]
fn bytes_that_are_no_text_are_replaced() {
    let mut w = Watch::new();
    w.feed(&[b'a', 0xFF, b'b']);
    assert_eq!(w.tail(9), "a\u{FFFD}b");
}

#[test]
fn a_wait_is_refused_where_an_echo_would_satisfy_it() {
    let mut w = Watch::new();
    w.feed(b"done");
    w.type_line("print done");
    assert_eq!(w.expect("done", true), Wait::Echoed("print done".to_string()));
    assert_eq!(
        w.expect_all(&vec!["x".to_string(), "print".to_string()], false),
        Wait::Echoed("print done".to_string())
    );
    assert_eq!(w.expect("more", false), Wait::Wait);
    assert_eq!(w.expect("more", true), Wait::TimedOut);
    assert!(w.see("done"), "the plain look does not ask what was typed");
    w.feed(b" b a");
    let both = vec!["a".to_string(), "b".to_string()];
    assert_eq!(w.expect_all(&both, true), Wait::Seen);
    assert_eq!(w.expect_all(&both, false), Wait::Wait);
    assert_eq!(w.expect_all(&both, true), Wait::TimedOut);
    w.feed(b"z");
    assert_eq!(w.expect("z", true), Wait::Seen);
}

#[test]
fn no_interactive_step_is_met_by_its_own_echo() {
    assert_eq!(STEPS, 26);
    assert_eq!((0..PARTS).map(part_steps).sum::<usize>(), STEPS);
    let mut w = Watch::new();
    let mut expected = 0;
    for part in 0..PARTS {
        let script = interactive_part(part);
        for i in 0..script.len() {
            match script.act(i) {
                Act::Send(s) | Act::Raw(s) => w.type_line(s),
                Act::Expect(s) => {
                    assert_eq!(w.echo_of(s), None, "{s}");
                    w.feed(s.as_bytes());
                    assert!(w.see(s));
                    expected += 1;
                }
                other => panic!("{other:?}"),
            }
        }
    }
    assert_eq!(expected, 89);
}
