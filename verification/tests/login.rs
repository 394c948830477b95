use nitrox::login::{check_after, AfterFault, Login, LoginFault, Stage};
use nitrox::script::{Act, Answer, Ask, Script};
use nitrox::transcript::SessionsFault;

fn line(s: &str) -> Answer {
    Answer::Line(s.to_string())
}

fn expects(s: &Script, want: &str) -> bool {
    (0..s.len()).any(|i| matches!(s.act(i), Act::Expect(e) if e == want))
}

fn clicks(s: &Script) -> Vec<(i64, i64)> {
    let mut out = Vec::new();
    for i in 0..s.len() {
        if let Act::Click(x, y) = s.act(i) {
            out.push((*x, *y));
        }
    }
    out
}

/// The answers of a healthy session up to a stage.
fn up_to(stage: Stage) -> Login {
    let answers = vec![
        Answer::Nothing,
        line("light font_px 14"),
        line("4 of 9"),
        line("0,24 1280x752 of 1280x800"),
        line("20 at 100,60"),
        line("0,0 640x400"),
        line("22 at 110,70"),
        line("0,0 640x400"),
        Answer::Nothing,
        line(" win=4 kind=1"),
        Answer::Nothing,
        Answer::Nothing,
        Answer::Seen(true),
        Answer::Nothing,
        line("3 entries"),
        line("30 geometry 200,100 500x300"),
        line("31 geometry 300,120 560x420"),
        Answer::Nothing,
        line("2 other.txt"),
        line("1 notes.txt"),
        line("40 at 10,20"),
        Answer::Seen(true),
        line("50 at 220,130 120x86"),
        line("60 at 400,200"),
        line("61 of window 60 at 510,344 340x132"),
        line("61 of window 60 at 510,344 340x132"),
        line("desktop 1 of 2 [30:nxfiles] [31:notes.txt*]"),
    ];
    let mut l = Login::new();
    for a in answers {
        if l.stage == stage {
            return l;
        }
        l.turn(&a).unwrap();
    }
    l
}

#[test]
fn a_healthy_session_goes_through_every_stage() {
    let mut l = up_to(Stage::Asked);
    assert_eq!(l.stage, Stage::Asked);
    let (script, ask) = l.turn(&line("62 of window 31 at 900,300 340x132")).unwrap();
    assert!(matches!(ask, Ask::Over));
    assert_eq!(l.stage, Stage::Over);
    assert_eq!(clicks(&script), [(900 + 249, 300 + 103)]);
    assert!(expects(&script, "desktop-shell: window 31 did not answer; closed it"));
    assert_eq!(l.turn(&Answer::Nothing).err(), Some(LoginFault::OutOfStep));
}

#[test]
fn the_first_turn_refuses_a_wrong_password_first() {
    let mut l = Login::new();
    let (s, ask) = l.turn(&Answer::Nothing).unwrap();
    assert!(matches!(ask, Ask::Line));
    assert!(matches!(s.act(4), Act::Greeter(t) if t == "wrong-password"));
    assert!(matches!(s.act(6), Act::Expect(t) if t == "desktop-session-mgr: login denied"));
}

#[test]
fn the_windows_buttons_are_aimed_at_from_its_corner() {
    let mut l = up_to(Stage::Sized);
    let (s, _) = l.turn(&line("100,60 640x400")).unwrap();
    let c = clicks(&s);
    assert_eq!(c[0], (100 + 640 - 39, 60 + 13), "maximise");
    assert_eq!(c[1], (1280 - 39, 24 + 13), "and the same button of the maximised window");
    assert_eq!(c[2], (100 + 640 - 65, 60 + 13), "minimise");
    assert!(expects(&s, "desktop-shell: maximize window 20 to 0,24 1280x752"));
    assert!(expects(&s, "nxterm: resized to 640x400, grid "));
}

#[test]
fn a_drag_lands_where_its_motions_add_up() {
    let mut l = up_to(Stage::Drags);
    let (s, _) = l.turn(&Answer::Nothing).unwrap();
    assert!(expects(&s, "compositor: interactive resize of window 22 ended at 0,24 1080x652"));
    assert!(expects(&s, "desktop-shell: window 22 geometry 108,204 1080x652"));
    assert!(expects(&s, "desktop-shell: drop window 22 to 0,24 640x752"));
}

#[test]
fn a_burst_has_to_arrive() {
    let mut l = up_to(Stage::Burst);
    let (s, ask) = l.turn(&Answer::Nothing).unwrap();
    let motions: Vec<(i32, i32)> = (0..s.len())
        .filter_map(|i| match s.act(i) {
            Act::Motion(x, y) => Some((*x, *y)),
            _ => None,
        })
        .collect();
    assert_eq!(motions.iter().filter(|m| **m == (-6, -3)).count(), 120);
    match ask {
        Ask::Within(l, 20) => assert_eq!(l, "compositor: press at x=559 y=439"),
        other => panic!("{other:?}"),
    }
    assert_eq!(l.turn(&Answer::Seen(false)).err(), Some(LoginFault::Drifted));
}

#[test]
fn each_fault_comes_at_its_stage() {
    let fault = |stage, a: Answer| up_to(stage).turn(&a).err();
    assert_eq!(fault(Stage::Theme, line("light")), Some(LoginFault::NoFont));
    assert_eq!(fault(Stage::Wallpaper, line("")), Some(LoginFault::NoWallpaper));
    assert_eq!(fault(Stage::WorkArea, line("0,24")), Some(LoginFault::NoWorkArea));
    assert_eq!(
        fault(Stage::WorkArea, line("0,0 1280x800 of 1280x800")),
        Some(LoginFault::WholeScreen)
    );
    assert_eq!(fault(Stage::Placed, line("20")), Some(LoginFault::NoPlacement));
    assert_eq!(fault(Stage::Sized, line("0,0")), Some(LoginFault::NoGeometry));
    assert_eq!(fault(Stage::Sticky, line("win=7")), Some(LoginFault::NotSticky));
    assert_eq!(fault(Stage::Tab, line("1 notes.txt")), Some(LoginFault::NotCurrent));
    assert_eq!(fault(Stage::Switched, line("2 other.txt")), Some(LoginFault::NotSwitched));
    assert_eq!(fault(Stage::Popup, line("50")), Some(LoginFault::NoPopup));
    assert_eq!(fault(Stage::Dialog, line("61")), Some(LoginFault::NoDialog));
    assert_eq!(fault(Stage::Theme, Answer::Seen(true)), Some(LoginFault::OutOfStep));
    let mut l = up_to(Stage::Font);
    l.px = 15;
    assert_eq!(l.turn(&Answer::Nothing).err(), Some(LoginFault::WrongFont(15)));
}

#[test]
fn the_question_has_to_be_centred_on_its_editor() {
    let fault = |s| up_to(Stage::Dialog).turn(&line(s)).err();
    assert_eq!(fault("61 of window 60 at 510,344 340x132"), None);
    assert_eq!(
        fault("61 of window 59 at 510,344 340x132"),
        Some(LoginFault::OtherParent(59))
    );
    assert_eq!(
        fault("61 of window 60 at 510,344 341x132"),
        Some(LoginFault::OtherSize(341, 132))
    );
    assert_eq!(
        fault("61 of window 60 at 511,344 340x132"),
        Some(LoginFault::Elsewhere(511, 344, 510, 344))
    );
    let mut l = up_to(Stage::Dialog);
    l.blank.x = 1200;
    assert_eq!(
        l.turn(&line("61 of window 60 at 940,344 340x132")).err(),
        None,
        "brought inside the work area"
    );
    let mut l = up_to(Stage::Dialog);
    l.work.w = 300;
    assert_eq!(
        l.turn(&line("61 of window 60 at 0,24 340x132")).err(),
        Some(LoginFault::NoRoom)
    );
}

#[test]
fn the_retries_are_counted() {
    let mut l = up_to(Stage::Clip);
    for _ in 0..9 {
        assert!(l.turn(&Answer::Seen(false)).is_ok());
    }
    assert_eq!(l.turn(&Answer::Seen(false)).err(), Some(LoginFault::NoClip));
    let mut l = up_to(Stage::Closing);
    for _ in 0..3 {
        assert!(l.turn(&line("desktop 1 of 2 [60:scratch] [31:notes.txt*]")).is_ok());
    }
    assert_eq!(l.turn(&line("[60:scratch]")).err(), Some(LoginFault::StillListed));
    let mut l = up_to(Stage::Closing);
    assert_eq!(l.turn(&line("[30:nxfiles]")).err(), Some(LoginFault::NotListed));
}

fn passing() -> String {
    [
        "nxterm: resized to 1280x752, grid 142x44 cells, lines 9->8, 1 evicted",
        "desktop-shell: asked window 31 to close",
        "desktop-shell: asked window 20 to close",
        "compositor: dismissed win=3",
        "nxsh: terminal closed",
        "nxsh: up (env: 4 fields)",
        "nxsh: up (env: 5 fields)",
        "nxterm: hosting a shell",
        "desktop: running",
        "desktop: listed 3 desktops (table)",
        "desktop: named 2 cli",
        "desktop-shell: up (graphical session leader)",
    ]
    .join("\n")
}

#[test]
fn a_transcript_is_checked_when_the_gate_is_over() {
    let mut l = Login::new();
    l.edit.id = 31;
    l.first = 20;
    l.term.id = 22;
    assert_eq!(check_after(&passing(), l), Ok(()));
    let without = |s: &str| check_after(&passing().replace(s, ""), l).err();
    assert_eq!(without(", lines 9->8, 1 evicted"), Some(AfterFault::NoReflow));
    assert_eq!(without("desktop-shell: asked window 31 to close"), Some(AfterFault::EditorNotAsked));
    assert_eq!(
        without("desktop-shell: asked window 20 to close"),
        Some(AfterFault::TerminalNotAsked)
    );
    assert_eq!(without("compositor: dismissed win="), Some(AfterFault::NotDismissed));
    assert_eq!(without("nxsh: terminal closed"), Some(AfterFault::ShellOutlived));
    let with = |s: &str| check_after(&format!("{}\n{s}", passing()), l).err();
    assert_eq!(with("asked window 22 to close"), Some(AfterFault::AskedTheShell));
    assert_eq!(with(", lines 9->7, 1 evicted"), Some(AfterFault::LostLines(9, 7, 1)));
    assert_eq!(
        check_after(&passing().replace("142x44", "80x24"), l).err(),
        Some(AfterFault::NoGrowth(Some((80, 24))))
    );
    assert!(matches!(
        with("desktop-session-mgr: session ended"),
        Some(AfterFault::Sessions(SessionsFault::SessionEnded))
    ));
}
