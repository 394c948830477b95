use nitrox::display::{away_script, back_script, present_script};
use nitrox::input::{burst_script, chords_script, events_script, stall_script};
use nitrox::pointer::{pin_steps, pointer_walk};
use nitrox::script::{
    after_click, chord_keys, click_attempt, click_line, control_keys, move_pointer_to, press_keys, type_at_greeter,
    type_at_terminal, type_into_modal, Act, ClickStep, Script,
};
use nitrox::shots::{
    apps_script, desktop_script, greeter_script, is_known, launch_from_modal, overview_script,
    second_modal_script, windows_script, Moment,
};
use nitrox::terminal::{
    boot_script, cell_agrees, menu_script, parse_grid_line, typing_script, GridFault, MenuFault,
};

fn show(s: &Script) -> Vec<String> {
    (0..s.len()).map(|i| format!("{:?}", s.act(i))).collect()
}

#[test]
fn a_chord_releases_what_it_presses() {
    assert_eq!(
        show(&chord_keys(true, "2")),
        [
            "Key(\"meta_l\", true)",
            "Key(\"shift\", true)",
            "Key(\"2\", true)",
            "Key(\"2\", false)",
            "Key(\"shift\", false)",
            "Key(\"meta_l\", false)"
        ]
    );
    assert_eq!(chord_keys(false, "2").len(), 4);
    assert_eq!(show(&press_keys("a")), ["Key(\"a\", true)", "Key(\"a\", false)"]);
    assert_eq!(
        show(&control_keys("s")),
        [
            "Key(\"ctrl\", true)",
            "Key(\"s\", true)",
            "Key(\"s\", false)",
            "Key(\"ctrl\", false)"
        ]
    );
}

#[test]
fn the_greeter_is_typed_at_key_by_key() {
    assert_eq!(
        show(&type_at_greeter("a -").unwrap()),
        [
            "Press(\"a\")",
            "Expect(\"desktop-session-mgr: greeter redraw \")",
            "Press(\"spc\")",
            "Expect(\"desktop-session-mgr: greeter redraw \")",
            "Press(\"minus\")",
            "Expect(\"desktop-session-mgr: greeter redraw \")"
        ]
    );
    assert_eq!(type_at_greeter("ab?C").err(), Some('?'));
    assert_eq!(type_into_modal("nx").len(), 4);
    assert_eq!(
        show(&type_at_terminal("l s")),
        [
            "Sleep(40)",
            "Press(\"ret\")",
            "Sleep(40)",
            "Press(\"l\")",
            "Sleep(40)",
            "Press(\"spc\")",
            "Sleep(40)",
            "Press(\"s\")",
            "Sleep(40)",
            "Press(\"ret\")"
        ]
    );
}

#[test]
fn a_click_is_tried_three_times() {
    assert_eq!(click_line(-3, 12), "compositor: press at x=-3 y=12");
    assert_eq!(after_click(1, true), ClickStep::Landed);
    assert_eq!(after_click(1, false), ClickStep::Again);
    assert_eq!(after_click(2, false), ClickStep::Again);
    assert_eq!(after_click(3, false), ClickStep::GaveUp);
    assert_eq!(after_click(3, true), ClickStep::Landed);
}

#[test]
fn a_walk_arrives_in_steps_the_device_accepts() {
    let w = pointer_walk((1279, 799), (60, 12));
    assert!(w.iter().all(|s| s.0.abs() <= 100 && s.1.abs() <= 100));
    let sum = w.iter().fold((0, 0), |a, s| (a.0 + s.0, a.1 + s.1));
    assert_eq!(sum, (60 - 1279, 12 - 799));
    assert_eq!(w.len(), 13);
    assert_eq!(pointer_walk((5, 5), (5, 5)), vec![]);
    assert_eq!(pin_steps(), vec![(100, 100); 20]);
}

#[test]
fn an_unknown_pointer_is_pinned_before_it_is_moved() {
    let s = show(&move_pointer_to(None, 1279, 700));
    assert_eq!(s.len(), 22);
    assert!(s[..20].iter().all(|a| a == "Motion(100, 100)"));
    assert_eq!(s[20..], ["Sleep(500)", "Motion(0, -99)"]);
    assert_eq!(
        show(&click_attempt(Some((7, 9)), 5, 209)),
        [
            "Motion(-2, 100)",
            "Motion(0, 100)",
            "Button(\"left\", true)",
            "Button(\"left\", false)"
        ]
    );
    assert_eq!(move_pointer_to(Some((3, 3)), 3, 3).len(), 0);
}

#[test]
fn the_input_gate_injects_what_it_waits_for() {
    assert_eq!(stall_script().len(), 5);
    let b = burst_script();
    let sum = (0..b.len()).fold((0, 0), |a, i| match b.act(i) {
        Act::Motion(x, y) => (a.0 + x, a.1 + y),
        _ => a,
    });
    assert_eq!(sum, (210, 90));
    assert_eq!(show(&events_script()).iter().filter(|s| *s == "Motion(-120, -120)").count(), 12);
    let c = show(&chords_script());
    assert_eq!(c.iter().filter(|s| *s == "Motion(3, 3)").count(), 40);
    assert_eq!(c.last().unwrap(), "Expect(\"input-testclient: PASSED\")");
}

#[test]
fn the_photographs_are_asked_for_by_name() {
    let names: Vec<&str> = vec!["greeter", "desktop"];
    assert!(is_known("all", &names));
    assert!(is_known("desktop", &names));
    assert!(!is_known("overview", &names));
    assert!(Moment::Overview.is_wanted("all"));
    assert!(Moment::Overview.is_wanted("overview"));
    assert!(!Moment::Overview.is_wanted("apps"));
    assert_eq!(Moment::Windows.name(), "windows");
    assert_eq!(
        show(&launch_from_modal("nx"))[..4],
        [
            "Press(\"n\")",
            "Press(\"x\")",
            "Press(\"ret\")",
            "Expect(\"desktop-shell: launched nx into its own namespace\")"
        ]
    );
    let lens: Vec<usize> = [
        greeter_script(),
        desktop_script(),
        apps_script(),
        second_modal_script(),
        windows_script(),
        overview_script(),
    ]
    .iter()
    .map(|s| s.len())
    .collect();
    assert_eq!(lens, [2, 8, 2, 5, 1, 5]);
}

#[test]
fn the_display_gate_names_the_fonts_in_order() {
    let s = show(&present_script("/f/ui", "/f/mono"));
    assert_eq!(s[0], "Expect(\"ui-testclient: font loaded /f/ui\")");
    assert_eq!(s[1], "Expect(\"ui-testclient: font loaded /f/mono\")");
    assert_eq!(away_script().len(), 3);
    assert_eq!(back_script().len(), 2);
}

#[test]
fn the_terminals_grid_is_read() {
    assert_eq!(boot_script().len(), 1);
    let g = parse_grid_line(" /system/fonts/Mono.ttf, cell 9x17 at 14px ").unwrap();
    assert_eq!((g.path.as_str(), g.w, g.h, g.size.as_str()), ("/system/fonts/Mono.ttf", 9, 17, "14"));
    assert!(cell_agrees(&g, 9, 17));
    assert!(!cell_agrees(&g, 8, 17));
    assert_eq!(parse_grid_line("a, cell 9x17 at 14pxpx").unwrap().size, "14");
    assert_eq!(parse_grid_line("a cell 9x17").err(), Some(GridFault::NoCell));
    assert_eq!(parse_grid_line("a, cell 9x17").err(), Some(GridFault::NoSize));
    assert_eq!(parse_grid_line("a, cell 9 at 14px").err(), Some(GridFault::NoExtent));
    assert_eq!(parse_grid_line("a, cell 9xz at 14px").err(), Some(GridFault::BadNumber));
}

#[test]
fn the_terminals_menu_is_clicked_inside() {
    let s = typing_script();
    assert!(show(&s).contains(&"Expect(\"nxterm: grid> /> whoa\")".to_string()));
    assert_eq!(
        show(&menu_script("7 at -10,20 100x81").unwrap())[0],
        "MoveTo(40, 40)"
    );
    // A size with its top bit set is a negative distance, and its half is rounded towards zero.
    assert_eq!(
        show(&menu_script("7 at 10,20 4294967295x4294967291").unwrap())[0],
        "MoveTo(10, 19)"
    );
    assert_eq!(menu_script("7 at 10").err(), Some(MenuFault::Unreadable));
    assert_eq!(menu_script("7 at 10,20 0x81").err(), Some(MenuFault::NoExtent));
}
