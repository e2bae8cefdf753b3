use tvbox_wc::stacking::{
    focusable, latch, mapped, place_keys_for, rank, rank_of, stacked, topmost, Names, Rank, Window,
};
use tvbox_wc::state::PlaceKey;

#[test]
fn the_shell_ends_up_in_front_of_a_film_that_mapped_later() {
    // The order the box actually produces: the shell starts at boot, mpv maps
    // when a film starts.
    let order = tvbox_wc::stacking::order(vec![("shell", Rank::Shell), ("mpv", Rank::Other)]);
    assert_eq!(order, vec!["mpv", "shell"]);
}

#[test]
fn map_order_survives_within_a_group() {
    let order = tvbox_wc::stacking::order(vec![
        ("shell", Rank::Shell),
        ("mpv", Rank::Other),
        ("popup", Rank::Shell),
        ("retroarch", Rank::Other),
    ]);
    assert_eq!(order, vec!["mpv", "retroarch", "shell", "popup"]);
}

#[test]
fn a_note_is_in_front_of_an_app_that_is_covering_the_shell() {
    // The case it exists for: an app is fullscreen, so the shell's own window is
    // behind it, and the note still has to be seen.
    let order = tvbox_wc::stacking::order(vec![
        ("shell", Rank::Shell),
        ("plex", Rank::Other),
        ("note", Rank::Overlay),
    ]);
    assert_eq!(order, vec!["plex", "shell", "note"]);
}

#[test]
fn only_the_shell_may_claim_the_front() {
    // A title is a string any page can set, and every Chromium window shares one
    // app id - so the app id is what has to gate this, not the title alone.
    assert_eq!(
        rank_of(
            Some("tvbox-shell"),
            Some("tvbox-overlay"),
            "tvbox-shell",
            "tvbox-overlay"
        ),
        Rank::Overlay
    );
    assert_eq!(
        rank_of(
            Some("mpv"),
            Some("tvbox-overlay"),
            "tvbox-shell",
            "tvbox-overlay"
        ),
        Rank::Other
    );
    assert_eq!(
        rank_of(
            Some("tvbox-shell"),
            Some("Plex"),
            "tvbox-shell",
            "tvbox-overlay"
        ),
        Rank::Shell
    );
    assert_eq!(
        rank_of(None, None, "tvbox-shell", "tvbox-overlay"),
        Rank::Other
    );
}

#[test]
fn two_notes_keep_their_order() {
    let order = tvbox_wc::stacking::order(vec![
        ("first", Rank::Overlay),
        ("app", Rank::Other),
        ("second", Rank::Overlay),
    ]);
    assert_eq!(order, vec!["app", "first", "second"]);
}

#[test]
fn a_window_that_has_not_named_itself_is_asked_again() {
    // The toplevel exists before set_app_id arrives, and the keyboard question is
    // asked in between. Remembering that silence unnames the window forever.
    let mut remembered = None;
    assert_eq!(latch(&mut remembered, None), None);
    assert_eq!(
        latch(&mut remembered, Some("tvbox-shell".into())),
        Some("tvbox-shell".into())
    );
}

#[test]
fn the_first_name_is_the_one_that_counts() {
    let mut remembered = None;
    latch(&mut remembered, Some("mpv".into()));
    assert_eq!(
        latch(&mut remembered, Some("tvbox-shell".into())),
        Some("mpv".into())
    );
}

#[test]
fn a_note_never_holds_the_keyboard() {
    // The overlay is in front of everything, and that is exactly why it must not
    // be asked to answer the remote.
    assert_eq!(
        focusable(vec![
            ("launcher", Rank::Shell, true),
            ("note", Rank::Overlay, true),
        ]),
        Some("launcher")
    );
}

#[test]
fn only_the_shell_may_be_placed_by_a_title() {
    // A title names ONE of the shell's windows, which is what the note needs.
    assert_eq!(
        place_keys_for(Some("tvbox-shell"), Some("tvbox-overlay"), "tvbox-shell"),
        vec![
            PlaceKey::Title("tvbox-overlay".into()),
            PlaceKey::AppId("tvbox-shell".into()),
        ]
    );
    // For anyone else the title is a string they chose. Without this, naming
    // yourself puts you in the note's rectangle - and since a changed location
    // is what re-places a window, renaming moves you about at will.
    assert_eq!(
        place_keys_for(Some("mpv"), Some("tvbox-overlay"), "tvbox-shell"),
        vec![PlaceKey::AppId("mpv".into())]
    );
    // A window that has not named its client is placed by nothing.
    assert_eq!(
        place_keys_for(None, Some("tvbox-overlay"), "tvbox-shell"),
        vec![]
    );
}

#[test]
fn a_note_over_a_fullscreen_app_leaves_the_app_answering_the_remote() {
    // What the box really produces: an app is in front, so the shell's own
    // window has been torn down and is waiting to come back, and a note arrives
    // over the top of it.
    assert_eq!(
        focusable(vec![
            ("launcher", Rank::Shell, false),
            ("plex", Rank::Other, true),
            ("note", Rank::Overlay, true),
        ]),
        Some("plex")
    );
}

#[test]
fn a_window_that_has_not_mapped_is_not_offered_the_keyboard() {
    // A note showing for the second time: the surface is reused, so the app id
    // is already the shell's while the title is still on its way. It ranks as an
    // ordinary shell window here, and it is the newest one - without preferring
    // what is on screen it would take the remote for as long as the note is up.
    assert_eq!(
        focusable(vec![
            ("launcher", Rank::Shell, true),
            ("nameless note", Rank::Shell, false),
        ]),
        Some("launcher")
    );
}

#[test]
fn a_window_that_maps_takes_the_keyboard() {
    // The other side of the same test: once the buffer is there, an app that
    // opened over the launcher is what the remote should be driving.
    assert_eq!(
        focusable(vec![
            ("launcher", Rank::Shell, true),
            ("app", Rank::Shell, true),
        ]),
        Some("app")
    );
}

#[test]
fn a_native_program_answers_the_remote_when_nothing_of_ours_is_left() {
    // The shell unmaps its own windows before RetroArch starts.
    assert_eq!(
        focusable(vec![("retroarch", Rank::Other, true)]),
        Some("retroarch")
    );
}

#[test]
fn a_screen_with_only_a_note_on_it_gives_the_keyboard_to_nobody() {
    // Rather than to the note. There is nothing else to type into, and the note
    // is not a place to type.
    assert_eq!(focusable(vec![("note", Rank::Overlay, true)]), None);
}

#[test]
fn the_window_on_its_way_in_answers_when_nothing_else_is_on_screen() {
    // Every app switch: the shell tears the old window down before the new one
    // has painted, so for a few frames the only window on the box has no buffer.
    // Answering "nobody" there loses a press off an autorepeating arrow.
    assert_eq!(
        focusable(vec![("opening app", Rank::Shell, false)]),
        Some("opening app")
    );
}

#[test]
fn a_note_does_not_answer_even_when_it_is_the_only_thing_on_screen() {
    // The same gap with a note up. The window still coming in gets the keyboard,
    // and the note stays out of it in both tiers.
    assert_eq!(
        focusable(vec![
            ("opening app", Rank::Shell, false),
            ("note", Rank::Overlay, true),
        ]),
        Some("opening app")
    );
}

#[test]
fn a_screen_with_no_shell_window_is_left_alone() {
    // What a native program sees: the shell unmapped everything of its own.
    let order = tvbox_wc::stacking::order(vec![("retroarch", Rank::Other)]);
    assert_eq!(order, vec!["retroarch"]);
}

fn window(app_id: &str, title: &str, size: i32) -> Window {
    Window {
        app_id: Some(app_id.to_owned()),
        title: Some(title.to_owned()),
        w: size,
        h: size,
    }
}

fn usual_names() -> Names {
    Names::resolve(None, None)
}

#[test]
fn the_usual_names_can_be_replaced() {
    let usual = usual_names();
    assert_eq!(usual.shell, "tvbox-shell");
    assert_eq!(usual.overlay, "tvbox-overlay");
    let set = Names::resolve(Some("my-shell".to_owned()), Some("my-note".to_owned()));
    assert_eq!(set.shell, "my-shell");
    assert_eq!(set.overlay, "my-note");
}

#[test]
fn a_list_of_windows_is_stacked_by_place() {
    let windows = vec![
        window("tvbox-shell", "tvbox-overlay", 100),
        window("tvbox-shell", "Home", 1080),
        window("mpv", "tvbox-overlay", 1080),
    ];
    assert_eq!(stacked(&windows, &usual_names()), vec![2, 1, 0]);
    assert_eq!(topmost(&windows, &usual_names()), Some(1));
}

#[test]
fn a_stack_that_is_stacked_again_stays_as_it_is() {
    let ranks = vec![
        ("note", Rank::Overlay),
        ("shell", Rank::Shell),
        ("film", Rank::Other),
        ("popup", Rank::Shell),
    ];
    let once = tvbox_wc::stacking::order(ranks);
    assert_eq!(once, vec!["film", "shell", "popup", "note"]);
    let again = tvbox_wc::stacking::order(vec![
        ("film", Rank::Other),
        ("shell", Rank::Shell),
        ("popup", Rank::Shell),
        ("note", Rank::Overlay),
    ]);
    assert_eq!(once, again);
}

#[test]
fn a_window_without_a_size_is_not_on_screen() {
    assert!(mapped(&window("mpv", "film", 1)));
    assert!(!mapped(&window("mpv", "film", 0)));
    assert!(!mapped(&window("mpv", "film", -1)));
}

#[test]
fn a_window_is_ranked_by_its_names() {
    assert_eq!(
        rank(&window("tvbox-shell", "tvbox-overlay", 1), &usual_names()),
        Rank::Overlay
    );
    assert_eq!(
        rank(&window("tvbox-shell", "Home", 1), &usual_names()),
        Rank::Shell
    );
    assert_eq!(
        rank(&window("mpv", "tvbox-overlay", 1), &usual_names()),
        Rank::Other
    );
}

#[test]
fn an_empty_screen_gives_the_keyboard_to_nobody() {
    assert_eq!(topmost(&vec![], &usual_names()), None);
    assert_eq!(focusable::<u32>(vec![]), None);
}
