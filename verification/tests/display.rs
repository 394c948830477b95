use nitrox::display::{
    check_emptied, check_restored, compare_display, compare_region, cursor_pixels, filled,
    DesktopFault, DisplayFault, Raster, Rgb, Settle, SettleStep,
};

const GREY: Rgb = Rgb { r: 9, g: 9, b: 9 };

fn paint(p: &mut Raster, x: u32, y: u32, c: Rgb) {
    let i = ((y * p.w + x) * 3) as usize;
    p.rgb[i..i + 3].copy_from_slice(&[c.r, c.g, c.b]);
}

fn screen() -> Raster {
    let mut s = filled(40, 40, GREY);
    paint(&mut s, 20, 20, Rgb { r: 255, g: 255, b: 255 });
    s
}

#[test]
fn a_picture_of_one_colour_is_filled() {
    let p = filled(2, 1, Rgb { r: 1, g: 2, b: 3 });
    assert_eq!(p.rgb, [1, 2, 3, 1, 2, 3]);
    assert_eq!(p.pixel(1, 0), Rgb { r: 1, g: 2, b: 3 });
}

#[test]
fn every_pixel_is_compared_or_skipped() {
    let s = screen();
    let d = compare_region(&s, &filled(6, 5, GREY), 2, 3);
    assert_eq!((d.compared, d.mismatches, d.first), (30 - 6, 0, None));
    let d = compare_region(&s, &filled(41, 5, GREY), 0, 0);
    assert_eq!(d.compared, 0, "too wide for the screen");
}

#[test]
fn the_first_mismatch_is_told() {
    let mut s = screen();
    paint(&mut s, 3, 1, Rgb { r: 9, g: 9, b: 8 });
    paint(&mut s, 1, 2, Rgb { r: 0, g: 9, b: 9 });
    let d = compare_region(&s, &filled(6, 5, GREY), 0, 0);
    assert_eq!(d.mismatches, 2);
    let m = d.first.unwrap();
    assert_eq!((m.x, m.y, m.got, m.want), (3, 1, Rgb { r: 9, g: 9, b: 8 }, GREY));
    let d = compare_region(&s, &filled(6, 5, GREY), 4, 2);
    assert_eq!(d.first.unwrap().y, 2, "what is skipped is not compared");
}

#[test]
fn a_screen_is_compared_with_three_nested_windows() {
    let (a, b, c) = (filled(4, 4, GREY), filled(6, 6, GREY), filled(8, 8, GREY));
    let s = screen();
    assert_eq!(cursor_pixels(&s), 1);
    let r = compare_display(&s, &a, &b, &c).unwrap();
    assert!(r.agrees());
    assert_eq!(r.scene.compared + r.term.compared + r.ui.compared, 64);
    assert_eq!(r.verdict(&s, &b, &c), Ok(()));
    let big = filled(41, 41, GREY);
    assert_eq!(compare_display(&s, &big, &big, &big).err(), Some(DisplayFault::NoScene));
    let plain = filled(40, 40, GREY);
    assert_eq!(compare_display(&plain, &a, &b, &c).err(), Some(DisplayFault::NoCursor));
    assert_eq!(compare_display(&s, &b, &a, &c).err(), Some(DisplayFault::NotNested));
    let r = compare_display(&s, &a, &big, &big).unwrap();
    assert_eq!(r.verdict(&s, &big, &big), Err(DisplayFault::NoTerminal));
    let r = compare_display(&s, &a, &b, &big).unwrap();
    assert_eq!(r.verdict(&s, &b, &big), Err(DisplayFault::NoToolkit));
}

#[test]
fn each_window_is_told_when_it_differs() {
    let (a, b, c) = (filled(4, 4, GREY), filled(6, 6, GREY), filled(8, 8, GREY));
    let at = |x, y| {
        let mut s = screen();
        paint(&mut s, x, y, Rgb { r: 1, g: 1, b: 1 });
        let r = compare_display(&s, &a, &b, &c).unwrap();
        assert!(!r.agrees());
        r.verdict(&s, &b, &c).err().unwrap()
    };
    assert!(matches!(at(0, 0), DisplayFault::Scene(d) if d.mismatches == 1));
    assert!(matches!(at(5, 0), DisplayFault::Terminal(d) if d.mismatches == 1));
    assert!(matches!(at(0, 7), DisplayFault::Toolkit(d) if d.mismatches == 1));
}

#[test]
fn a_switch_of_desktops_empties_and_restores() {
    let mut s = screen();
    assert_eq!(check_emptied(&s, 40, 4, 4, GREY), Ok(()));
    assert_eq!(check_emptied(&s, 41, 4, 4, GREY), Err(DesktopFault::Width(40)));
    assert_eq!(check_restored(&s, &filled(4, 4, GREY)), Ok(()));
    paint(&mut s, 1, 1, Rgb { r: 1, g: 1, b: 1 });
    assert!(matches!(check_emptied(&s, 40, 4, 4, GREY), Err(DesktopFault::StillDrawn(_))));
    assert!(matches!(
        check_restored(&s, &filled(4, 4, GREY)),
        Err(DesktopFault::Changed(d)) if d.mismatches == 1
    ));
}

#[test]
fn a_screen_has_settled_when_two_captures_are_the_same() {
    let mut s = Settle::new();
    assert_eq!(s.take(vec![1]), SettleStep::Again);
    assert_eq!(s.take(vec![2]), SettleStep::Again);
    assert_eq!(s.take(vec![2]), SettleStep::Settled);
    let mut s = Settle::new();
    for i in 0..11 {
        assert_eq!(s.take(vec![i]), SettleStep::Again);
    }
    assert_eq!(s.take(vec![99]), SettleStep::GaveUp);
}
