use tvbox_wc::input::{evdev_code, filter, is_quit, remap, Filtered, KEY_BACK, KEY_BACKSPACE};
use tvbox_wc::state::Focus;

#[test]
fn back_is_rewritten_only_for_an_app() {
    let back = KEY_BACK;
    let app = Focus::App("plex".into());

    assert_eq!(remap(back, &app), KEY_BACKSPACE);
    assert_eq!(remap(back, &Focus::Launcher), KEY_BACK);
}

#[test]
fn other_keys_are_left_alone() {
    let enter = 28u32 + 8;
    for focus in [Focus::Launcher, Focus::App("plex".into())] {
        assert_eq!(remap(enter, &focus), enter);
    }
}

#[test]
fn the_keys_have_their_xkb_codes() {
    assert_eq!(KEY_BACK, 158 + 8);
    assert_eq!(KEY_BACKSPACE, 14 + 8);
    assert_eq!(evdev_code(KEY_BACK), 158);
    assert_eq!(evdev_code(3), 0);
}

#[test]
fn only_the_whole_combination_quits_and_only_when_it_goes_down() {
    assert!(is_quit(true, true, 0xff08));
    assert!(!is_quit(true, false, 0xff08));
    assert!(!is_quit(false, true, 0xff08));
    assert!(!is_quit(true, true, 0xff0d));
    assert_eq!(filter(true, true, true, 0xff08), Filtered::Quit);
    assert_eq!(filter(false, true, true, 0xff08), Filtered::Forward);
    assert_eq!(filter(true, false, false, 0x61), Filtered::Forward);
}
