use nitrox::bench::{
    first_experiment_ran, median, percentile, push_num, read_samples, report, Arm, Way,
};
use nitrox::number::{
    parse_i128, parse_i32, parse_i64, parse_u32, parse_u64, parse_usize, write_number, write_padded,
};
use nitrox::placement::{
    parse_geometry, parse_geometry_line, parse_menu_popup, parse_placement, parse_popup_line,
    parse_work_area,
};
use nitrox::qmp::{
    button_command, capabilities_command, classify, escape, greeter_key, is_greeting, key_command,
    monitor_command, motion_command, screendump_command, take_line, terminal_key,
    unescape_json_return, Reply,
};
use nitrox::table::Table;
use nitrox::text::{
    chars_of, cut, ident, lines_of, pieces, replaced, string_of, stripped_all, trimmed, words_of,
};
use nitrox::wire::{copy, latin_of, read_le, same_bytes, u16_at, u32_at, u64_at, write_le};

fn c(s: &str) -> Vec<char> {
    s.chars().collect()
}

fn strings(v: &[&[char]]) -> Vec<String> {
    v.iter().map(|s| s.iter().collect()).collect()
}

#[test]
fn numbers_are_read_as_the_standard_library_reads_them() {
    for s in ["0", "42", "+7", "-7", "", "+", "-", "4294967295", "4294967296", "1 ", "00012", "٣"] {
        assert_eq!(parse_u32(&c(s)), s.parse::<u32>().ok(), "{s:?}");
        assert_eq!(parse_i32(&c(s)), s.parse::<i32>().ok(), "{s:?}");
    }
    for s in ["ff", "-80", "7fffffffffffffff", "8000000000000000", "-8000000000000000", "g"] {
        assert_eq!(parse_i64(&c(s), 16), i64::from_str_radix(s, 16).ok(), "{s:?}");
        assert_eq!(parse_u64(&c(s), 16), u64::from_str_radix(s, 16).ok(), "{s:?}");
        assert_eq!(parse_i128(&c(s), 16), i128::from_str_radix(s, 16).ok(), "{s:?}");
        assert_eq!(parse_usize(&c(s), 16), usize::from_str_radix(s, 16).ok(), "{s:?}");
    }
}

#[test]
fn a_written_number_reads_back() {
    for n in [0, 9, 10, 255, u64::MAX] {
        assert_eq!(string_of(&write_number(n, 10)), n.to_string());
        assert_eq!(string_of(&write_padded(n, 16, 16)), format!("{n:016x}"));
        assert_eq!(parse_u64(&write_number(n, 10), 10), Some(n));
    }
}

#[test]
fn text_is_cut_as_the_standard_library_cuts_it() {
    for s in ["a,b,,c", "", ",", "abc", " x\ty  z ", "a\r\nb\n\nc\r", "\n", "é,ü"] {
        assert_eq!(strings(&pieces(&c(s), ",")), s.split(',').collect::<Vec<_>>(), "{s:?}");
        assert_eq!(strings(&lines_of(&c(s))), s.lines().collect::<Vec<_>>(), "{s:?}");
        assert_eq!(strings(&words_of(&c(s))), s.split_whitespace().collect::<Vec<_>>(), "{s:?}");
        assert_eq!(string_of(trimmed(&c(s))), s.trim(), "{s:?}");
        assert_eq!(string_of(&replaced(&c(s), ",", "--")), s.replace(',', "--"), "{s:?}");
        let k = c(s);
        let got = cut(&k, ",").map(|(a, b)| (string_of(a), string_of(b)));
        assert_eq!(got, s.split_once(',').map(|(a, b)| (a.to_string(), b.to_string())), "{s:?}");
    }
    assert_eq!(chars_of("aé"), ['a', 'é']);
    assert_eq!(string_of(ident(&c("a_1-b"))), "a_1");
    assert_eq!(string_of(stripped_all(&c("> > x"), "> ")), "x");
}

#[test]
fn a_table_keeps_its_names_in_order() {
    let mut t: Table<u8> = Table::new();
    for (n, v) in [("b", 1), ("a", 2), ("ab", 3), ("b", 4)] {
        t.insert(n.to_string(), v);
    }
    let all: Vec<(&str, u8)> = (0..t.len()).map(|i| (t.name(i), *t.value(i))).collect();
    assert_eq!(all, [("a", 2), ("ab", 3), ("b", 4)]);
    assert_eq!(t.get(&c("ab")), Some(&3));
    assert_eq!(t.get(&c("c")), None);
}

#[test]
fn bytes_are_read_from_the_small_end() {
    let b = [1, 2, 3, 4, 5, 6, 7, 8, 9];
    assert_eq!(u16_at(&b, 1), Some(0x0302));
    assert_eq!(u32_at(&b, 5), Some(0x0908_0706));
    assert_eq!(u64_at(&b, 1), Some(u64::from_le_bytes([2, 3, 4, 5, 6, 7, 8, 9])));
    assert_eq!(u64_at(&b, 2), None);
    assert_eq!(read_le(&b, usize::MAX, 2), None);
    assert_eq!(write_le(0x0302, 4), [2, 3, 0, 0]);
    assert_eq!(latin_of(&[0x41, 0xE9]), ['A', 'é']);
    assert!(same_bytes(&b, &copy(&b)));
    assert!(!same_bytes(&b, &b[1..]));
}

#[test]
fn a_percentile_is_a_sample() {
    let mut v = vec![30, 10, 20];
    assert_eq!(percentile(&mut v, 34), 20);
    assert_eq!(v, [10, 20, 30]);
    assert_eq!(percentile(&mut v, 33), 10);
    assert_eq!(percentile(&mut v, 0), 10);
    assert_eq!(percentile(&mut v, 100), 30);
    assert_eq!(percentile(&mut v, 200), 30);
    assert_eq!(median(&mut vec![4, 1, 3, 2]), 2);
    assert_eq!(median(&mut vec![]), 0);
}

#[test]
fn the_benchmarks_samples_are_read() {
    let t = "x compose-bench: e1 aperture 7\ncompose-bench: e1 anonymous 3\n\
             compose-bench: e2 640 inplace 1 shadow 2 exposed 3 both 4\n\
             compose-bench: e2 z inplace 5 shadow 2 exposed 3 both\n";
    let s = read_samples(t).unwrap();
    assert_eq!((s.aperture, s.anonymous), (vec![7], vec![3]));
    assert_eq!((s.area, s.inplace, s.shadow), (vec![640], vec![1], vec![2]));
    assert_eq!((s.exposed, s.both), (vec![3], vec![4]));
    assert!(read_samples("compose-bench: e1 aperture 7").is_none());
    let mut v = vec![];
    push_num(&mut v, "12");
    push_num(&mut v, "-12");
    assert_eq!(v, [12]);
    assert!(first_experiment_ran(1, 1));
    assert!(!first_experiment_ran(0, 1) && !first_experiment_ran(1, 0));
}

#[test]
fn a_run_is_reported_by_its_percentiles() {
    let mut t = String::from("compose-bench: e1 aperture 9\ncompose-bench: e1 aperture 5\n");
    for n in (1..=100).rev() {
        t.push_str(&format!("compose-bench: e2 {n} inplace {n} shadow x exposed {} both 7\n", 2 * n));
    }
    let r = report(read_samples(&t).unwrap());
    assert_eq!((r.aperture, r.anonymous, r.first_ran), (5, 0, false));
    assert_eq!((r.frames, r.damage), (100, 50));
    assert_eq!(
        r.arms,
        [
            Arm { way: Way::InPlace, p50: 50, p90: 90, p99: 99 },
            Arm { way: Way::Exposed, p50: 100, p90: 180, p99: 198 },
            Arm { way: Way::Both, p50: 7, p90: 7, p99: 7 },
        ]
    );
}

#[test]
fn a_command_to_the_monitor_is_spelled_out() {
    assert_eq!(capabilities_command(), r#"{"execute":"qmp_capabilities"}"#);
    assert_eq!(
        monitor_command(r#"x "\"#),
        r#"{"execute":"human-monitor-command","arguments":{"command-line":"x \"\\"}}"#
    );
    assert_eq!(
        key_command("a", true),
        r#"{"execute":"input-send-event","arguments":{"events":[{"type":"key",
               "data":{"down":true,"key":{"type":"qcode","data":"a"}}}]}}"#
    );
    assert_eq!(
        button_command("left", false),
        r#"{"execute":"input-send-event","arguments":{"events":[{"type":"btn",
               "data":{"down":false,"button":"left"}}]}}"#
    );
    assert_eq!(
        motion_command(-7, 3),
        r#"{"execute":"input-send-event","arguments":{"events":[
               {"type":"rel","data":{"axis":"x","value":-7}},
               {"type":"rel","data":{"axis":"y","value":3}}]}}"#
    );
    assert!(motion_command(i32::MIN, 0).contains("-2147483648"));
    assert_eq!(
        screendump_command("/t.ppm"),
        r#"{"execute":"screendump","arguments":{"filename":"/t.ppm"}}"#
    );
}

#[test]
fn an_escaped_line_reads_back() {
    for s in ["plain", "a \"b\" \\ c", ""] {
        assert_eq!(unescape_json_return(&format!("{{\"return\": \"{}\"}}", escape(s))), s);
    }
}

#[test]
fn the_monitors_lines_are_told_apart() {
    assert_eq!(classify(r#"{"event": "RESET", "return": 1}"#), Reply::Event);
    assert_eq!(classify(r#"{"error": {}}"#), Reply::Failed);
    assert_eq!(classify(r#"{"return": {}}"#), Reply::Answer);
    assert_eq!(classify("{}"), Reply::Unexpected);
    assert!(is_greeting(r#"{"QMP": {}}"#));
    let mut buf = b"a\xFFb\nrest".to_vec();
    assert_eq!(take_line(&mut buf).as_deref(), Some("a\u{FFFD}b"));
    assert_eq!(buf, b"rest");
    assert_eq!(take_line(&mut buf), None);
    assert_eq!(greeter_key('7').as_deref(), Some("7"));
    assert_eq!(greeter_key('A'), None);
    assert_eq!(terminal_key(' '), "spc");
    assert_eq!(terminal_key('|'), "|");
}

#[test]
fn the_shells_window_lines_are_read() {
    assert_eq!(parse_menu_popup(" 7 at -3,4 10x20 "), Some((7, -3, 4, 10, 20)));
    assert_eq!(parse_menu_popup("7 at 3,4"), None);
    assert_eq!(parse_geometry("1,2 640x400 x"), Some((640, 400)));
    assert_eq!(parse_geometry("1,2 640"), None);
    assert_eq!(parse_work_area("0,24 10x20 of 30x40"), Some((0, 24, 10, 20, 30, 40)));
    assert_eq!(parse_work_area("0,24 10x20 in 30x40"), None);
    assert_eq!(parse_placement("7 at 1,-2 more"), Some((7, 1, -2)));
    assert_eq!(parse_placement("7 by 1,2"), None);
    assert_eq!(parse_popup_line("7 at 1,2 3x4"), Some((7, 1, 2, 3, 4)));
    assert_eq!(parse_geometry_line("7 geometry 1,2 3x4"), Some((7, 1, 2, 3, 4)));
    assert_eq!(parse_geometry_line("7 at 1,2 3x4"), None);
}
