use nitrox::transcript::{
    adjudicate, check_chords, check_demo_chain, check_display_selftest, check_every_service_started,
    check_login_chain, check_motion, check_service_attribution, check_two_sessions,
    reflow_accounts_for_every_line, transcript_grid, transcript_reflows, AttributionFault,
    MotionFault, RunFault, SessionsFault, PASS_CODE, PASS_EXIT,
};

#[test]
fn the_reflows_are_read_in_order() {
    let t = "x, lines 9->8, 1 evicted\nno\ny, lines 5->5, 0 evicted\nz, lines 5->q, 0";
    assert_eq!(transcript_reflows(t), [(9, 8, 1), (5, 5, 0)]);
    assert!(reflow_accounts_for_every_line((9, 8, 1)));
    assert!(!reflow_accounts_for_every_line((9, 8, 0)));
    assert!(!reflow_accounts_for_every_line((0, u32::MAX, 1)), "no sum wraps");
}

#[test]
fn the_largest_grid_is_found() {
    let t = "a, grid 80x24 cells\nb, grid 142x44, x\nc, grid 142x9\nd, grid ";
    assert_eq!(transcript_grid(t), Some((142, 44)));
    assert_eq!(transcript_grid("nothing"), None);
    let small = "resized to 1x1, grid 9x9\r";
    assert_eq!(transcript_grid(&format!("{small}\n{t}")), Some((142, 44)));
    assert_eq!(transcript_grid(&format!("{t}\n{small}")), Some((142, 44)));
    assert_eq!(transcript_grid(&format!("{small}\nnothing")), Some((9, 9)));
}

fn two_sessions() -> String {
    [
        "nxsh: up (env: 4 fields)",
        "nxsh: up (env: 5 fields)",
        "nxterm: hosting a shell",
        "desktop: running",
        "desktop: listed 3 desktops (table)",
        "desktop: named 2 cli",
        "desktop-shell: up (graphical session leader)",
    ]
    .join("\n")
}

#[test]
fn two_sessions_are_shown_or_a_fault_is() {
    let t = two_sessions();
    assert_eq!(check_two_sessions(&t), Ok(()));
    let without = |s: &str| check_two_sessions(&t.replacen(s, "", 1)).err();
    let with = |s: &str| check_two_sessions(&format!("{t}\n{s}")).err();
    assert_eq!(with("nxsh: up (env: 0 fields)"), Some(SessionsFault::EmptyEnvironment));
    assert_eq!(without("nxsh: up (env: "), Some(SessionsFault::TooFewShells(1)));
    assert_eq!(without("nxterm: hosting a shell"), Some(SessionsFault::NoHostedShell));
    assert_eq!(without("desktop: running"), Some(SessionsFault::DesktopSilent(0)));
    assert_eq!(without("listed 3"), Some(SessionsFault::DesktopSilent(1)));
    assert_eq!(without("named 2"), Some(SessionsFault::DesktopSilent(2)));
    assert_eq!(
        with("compositor: no manager answer for window 3"),
        Some(SessionsFault::ManagerDeadline)
    );
    assert_eq!(with("desktop-shell: /bin lists 0 programs"), Some(SessionsFault::EmptyModal));
    assert_eq!(without("desktop-shell: up"), Some(SessionsFault::NoGraphicalSession));
    assert_eq!(with("desktop-session-mgr: session ended"), Some(SessionsFault::SessionEnded));
}

#[test]
fn an_exit_is_attributed_to_its_service() {
    let probe = "\u{1}service-mgr: 'boot-probe' exited code=0\n";
    assert_eq!(check_service_attribution(probe.as_bytes()), Ok(()));
    assert_eq!(check_service_attribution(b""), Err(AttributionFault::NotAttributed));
    let both = format!("{probe}service-mgr: restarting 'heartbeat'");
    assert_eq!(
        check_service_attribution(both.as_bytes()),
        Err(AttributionFault::Misattributed)
    );
}

fn run() -> Vec<u8> {
    let mut t = vec![0xFF];
    t.extend(
        b"session-mgr: received fs + profile endpoints; auth resolved from /svc/auth\n\
          test-harness: all smoke tests passed\n\
          display-selftest: PASSED\n",
    );
    t
}

#[test]
fn a_run_passes_only_when_everything_was_said() {
    assert_eq!(2 * PASS_CODE as i32 + 1, PASS_EXIT);
    let t = run();
    assert!(check_login_chain(&t) && check_demo_chain(&t) && check_display_selftest(&t));
    assert!(adjudicate(false, Some(33), &t).is_ok());
    assert!(matches!(adjudicate(true, Some(33), &t), Err(RunFault::TimedOut)));
    assert!(matches!(adjudicate(false, None, &t), Err(RunFault::Signalled)));
    assert!(matches!(adjudicate(false, Some(35), &t), Err(RunFault::Failed(35))));
    let said = String::from_utf8_lossy(&t).into_owned();
    let without = |s: &str| adjudicate(false, Some(33), said.replace(s, "").as_bytes());
    assert!(matches!(without("session-mgr: "), Err(RunFault::LoginChain)));
    assert!(matches!(without("all smoke"), Err(RunFault::DemoChain)));
    assert!(matches!(without("PASSED"), Err(RunFault::DisplaySelftest)));
    let line = "service-mgr: spawn FAIL 'x'";
    let with = format!("{said}{line}\nmore");
    match adjudicate(false, Some(33), with.as_bytes()) {
        Err(RunFault::ServiceStart(l)) => assert_eq!(l, line),
        other => panic!("{other:?}"),
    }
    assert_eq!(
        check_every_service_started(b"a service-mgr: image not found /x\r\nb"),
        Err("service-mgr: image not found /x".to_string())
    );
    assert_eq!(check_every_service_started(b"fine"), Ok(()));
}

#[test]
fn deferred_motion_loses_nothing() {
    let line = |dx, dy, ann, wide| format!("dx={dx} dy={dy} announced={ann} widest={wide}");
    assert_eq!(check_motion(&line(210, 90, 0, 14)), Ok(()));
    assert_eq!(
        check_motion(&line(203, 90, 0, 14)),
        Err(MotionFault::Lost { dx: Some(203), dy: Some(90) })
    );
    assert_eq!(check_motion("dx=210"), Err(MotionFault::Lost { dx: Some(210), dy: None }));
    assert_eq!(check_motion(&line(210, 90, 1, 14)), Err(MotionFault::Announced(Some(1))));
    assert_eq!(check_motion(&line(210, 90, 0, 7)), Err(MotionFault::NotDeferred(Some(7))));
}

#[test]
fn a_chord_reaches_no_window() {
    assert_eq!(check_chords("win key code=30"), Ok(()));
    assert_eq!(check_chords("win key code=57 and win key code=59"), Err(0));
    assert_eq!(check_chords("widget key code=59"), Err(1));
    assert_eq!(check_chords("win key code=57"), Err(2));
}
