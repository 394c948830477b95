use nitrox::placement::{parse_dialog_placement, taskbar_slot};

#[test]
fn a_dialog_placement_reads_back_as_six_numbers() {
    assert_eq!(
        parse_dialog_placement(" 21 of window 20 at 490,214 340x132"),
        Some((21, 20, 490, 214, 340, 132))
    );
    assert_eq!(
        parse_dialog_placement("3 of window 2 at -4,24 100x50"),
        Some((3, 2, -4, 24, 100, 50))
    );
    assert_eq!(parse_dialog_placement("21 at 490,214 340x132"), None, "no parent");
    assert_eq!(parse_dialog_placement("21 of window 20 at 490 340x132"), None, "no comma");
    assert_eq!(parse_dialog_placement(""), None);
}

#[test]
fn a_taskbar_slot_is_the_position_of_the_id_not_the_id() {
    let list = "desktop 1 of 2 [20:nxfiles] [24:notes.txt*] [31:untitled]";
    assert_eq!(taskbar_slot(list, 20), Some(0));
    assert_eq!(taskbar_slot(list, 24), Some(1));
    assert_eq!(taskbar_slot(list, 31), Some(2));
    assert_eq!(taskbar_slot(list, 21), None, "a window on another desktop has no slot");
    assert_eq!(taskbar_slot("desktop 1 of 1 [7:file20.txt]", 20), None);
    assert_eq!(taskbar_slot("desktop 1 of 1 (empty)", 20), None);
}
