use tvbox_wc::typing::{
    keymap_for, plan, reserved, restore_next, select_all_chord, strokes_for, usable_keycodes,
    Layout, CTRL_KEYCODE, MAX_TEXT,
};

#[test]
fn a_key_per_distinct_character() {
    let (keymap, keys) = keymap_for("aba").expect("two distinct characters fit");

    assert!(keymap.contains("key <K0> { [ U0061 ] };"));
    assert!(keymap.contains("key <K1> { [ U0062 ] };"));
    let codes: Vec<u32> = keys.iter().map(|k| *k).collect();
    assert_eq!(codes[0], codes[2]);
    assert_ne!(codes[0], codes[1]);
}

#[test]
fn no_character_lands_on_a_key_a_client_acts_on() {
    // 14 is backspace: a character there is typed and then deleted.
    let text: String = ('a'..='z').collect();
    let (_, keys) = keymap_for(&text).expect("fits");

    for key in keys {
        let evdev = key - 8;
        assert!(
            !reserved(evdev),
            "character placed on reserved evdev {evdev}"
        );
    }
}

#[test]
fn accented_and_symbols_survive() {
    let (keymap, keys) = keymap_for("Árvíz!").expect("fits");

    assert!(keymap.contains("U00C1")); // Á
    assert!(keymap.contains("U00ED")); // í
    assert!(keymap.contains("U0021")); // !
    assert_eq!(keys.len(), "Árvíz!".chars().count());
}

#[test]
fn every_key_that_goes_down_comes_back_up() {
    // A modifier left down would apply to everything typed after it, and a
    // character key left down repeats.
    let (_, keys) = keymap_for("hello").expect("fits");
    let mut strokes = select_all_chord();
    strokes.extend(strokes_for(&keys));

    let mut held: Vec<u32> = Vec::new();
    for (key, pressed) in strokes {
        if pressed {
            assert!(!held.contains(&key), "pressed twice without a release");
            held.push(key);
        } else {
            let at = held
                .iter()
                .position(|k| *k == key)
                .expect("released unpressed key");
            held.remove(at);
        }
    }
    assert!(held.is_empty(), "keys left down: {held:?}");
}

#[test]
fn select_all_finishes_before_the_first_character() {
    // Control must be up again by then: with it still held the string would go
    // out as shortcuts rather than text.
    let chord = select_all_chord();
    assert_eq!(
        chord.last().map(|(k, down)| (*k, *down)),
        Some((CTRL_KEYCODE, false))
    );
}

#[test]
fn a_string_too_wide_for_a_keymap_is_refused() {
    let wide: String = (0u32..400).filter_map(char::from_u32).collect();
    assert!(keymap_for(&wide).is_none());
}

#[test]
fn a_keymap_is_written_out_in_full() {
    let (keymap, keys) = keymap_for("aé").unwrap();
    assert_eq!(
        keymap,
        "xkb_keymap {\nxkb_keycodes { minimum = 8; maximum = 255;\n<K0> = 10;\n<K1> = 11;\n};\nxkb_types { include \"complete\" };\nxkb_compat { include \"complete\" };\nxkb_symbols \"typing\" {\nkey <K0> { [ U0061 ] };\nkey <K1> { [ U00E9 ] };\n};\n};\n"
    );
    assert_eq!(keys, vec![10, 11]);
}

#[test]
fn a_character_past_the_first_plane_takes_more_digits() {
    let (keymap, _) = keymap_for("😀").unwrap();
    assert!(keymap.contains("key <K0> { [ U1F600 ] };"));
}

#[test]
fn the_keycodes_in_use_start_after_escape_and_skip_the_editing_keys() {
    let codes = usable_keycodes();
    assert_eq!(codes[0], 10);
    assert_eq!(codes.len(), 204);
    assert!(!codes.contains(&22));
    assert!(!codes.contains(&166));
    assert!(codes.contains(&255));
}

#[test]
fn exactly_as_many_characters_fit_as_there_are_keycodes() {
    let fits: String = (0x4e00u32..0x4e00 + 204).filter_map(char::from_u32).collect();
    let wide: String = (0x4e00u32..0x4e00 + 205).filter_map(char::from_u32).collect();
    assert!(keymap_for(&fits).is_some());
    assert!(keymap_for(&wide).is_none());
}

#[test]
fn typing_nothing_sends_nothing() {
    assert_eq!(plan("", true, false), Ok(None));
}

#[test]
fn a_plan_says_what_goes_out_when() {
    let sent = plan("ab", true, true).unwrap().unwrap();
    assert_eq!(sent.chord, vec![(37, true), (38, true), (38, false), (37, false)]);
    assert_eq!(sent.strokes, vec![(10, true), (10, false), (11, true), (11, false)]);
    assert_eq!(sent.keys, 2);
    let plain = plan("ab", false, true).unwrap().unwrap();
    assert_eq!(plain.chord, vec![]);
    assert_eq!(plain.keymap, keymap_for("ab").unwrap().0);
}

#[test]
fn what_cannot_be_typed_is_refused_with_a_reason() {
    let long = "a".repeat(MAX_TEXT + 1);
    assert_eq!(
        plan(&long, false, true),
        Err("4097 characters is more than this will type at once".to_owned())
    );
    assert!(plan(&"a".repeat(MAX_TEXT), false, true).is_ok());
    assert_eq!(plan("a", false, false), Err("the seat has no keyboard".to_owned()));
    let wide: String = (0u32..400).filter_map(char::from_u32).collect();
    assert_eq!(
        plan(&wide, false, true),
        Err("the string needs too many distinct characters".to_owned())
    );
}

#[test]
fn the_keymap_is_put_back_one_way_or_another() {
    assert_eq!(restore_next(None), Some(Layout::Usual));
    assert_eq!(restore_next(Some(Layout::Usual)), Some(Layout::UsualAgain));
    assert_eq!(restore_next(Some(Layout::UsualAgain)), Some(Layout::PlainUs));
    assert_eq!(restore_next(Some(Layout::PlainUs)), None);
}
