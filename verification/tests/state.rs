use tvbox_wc::stacking::{Names, Window};
use tvbox_wc::state::{
    affected, after_mode, focus_changes, front_to_back, keyboard_target, map_at, needs_first_configure,
    on_commit, place, set_placement, surface_under, AfterCommit, Focus, Holder, Inhibitors, PlaceKey, Placements,
    Point, Rect, Size, Toplevel, Under,
};

const SHELL: &str = "tvbox-shell";

fn window(app_id: &str, title: &str) -> Window {
    Window {
        app_id: Some(app_id.to_owned()),
        title: Some(title.to_owned()),
        w: 100,
        h: 100,
    }
}

fn app(name: &str) -> PlaceKey {
    PlaceKey::AppId(name.to_owned())
}

fn title(name: &str) -> PlaceKey {
    PlaceKey::Title(name.to_owned())
}

const CORNER: Rect = Rect { x: 1, y: 2, w: 3, h: 4 };
const OTHER: Rect = Rect { x: 5, y: 6, w: 7, h: 8 };

#[test]
fn the_launcher_owns_the_screen_until_told_otherwise() {
    assert_eq!(Focus::default(), Focus::Launcher);
}

#[test]
fn a_placement_holds_until_it_is_taken_back() {
    let mut placements = Placements::new();
    assert_eq!(placements.get(&app("mpv")), None);
    placements.set(app("mpv"), Some(CORNER));
    placements.set(title("mpv"), Some(OTHER));
    assert_eq!(placements.get(&app("mpv")), Some(CORNER));
    assert_eq!(placements.get(&title("mpv")), Some(OTHER));
    placements.set(app("mpv"), Some(OTHER));
    assert_eq!(placements.get(&app("mpv")), Some(OTHER));
    placements.set(app("mpv"), None);
    assert_eq!(placements.get(&app("mpv")), None);
    assert_eq!(placements.get(&title("mpv")), Some(OTHER));
    placements.set(app("mpv"), None);
    assert_eq!(placements.get(&app("mpv")), None);
}

#[test]
fn a_title_places_one_window_and_wins_over_the_app_id() {
    let mut placements = Placements::new();
    let note = window(SHELL, "tvbox-overlay");
    let home = window(SHELL, "Home");
    let film = window("mpv", "tvbox-overlay");
    placements.set(app(SHELL), Some(OTHER));
    placements.set(title("tvbox-overlay"), Some(CORNER));
    assert_eq!(place(&note, &placements, SHELL), Some(CORNER));
    assert_eq!(place(&home, &placements, SHELL), Some(OTHER));
    assert_eq!(place(&film, &placements, SHELL), None);
    placements.set(title("tvbox-overlay"), None);
    assert_eq!(place(&note, &placements, SHELL), Some(OTHER));
}

#[test]
fn a_window_with_a_rectangle_keeps_it_through_a_mode_change() {
    let mut placements = Placements::new();
    placements.set(app("mpv"), Some(CORNER));
    placements.set(title("note"), Some(OTHER));
    let windows = vec![window("plex", "note"), window("mpv", "film"), window(SHELL, "note")];
    assert_eq!(
        after_mode(&windows, &placements, SHELL),
        vec![None, Some(CORNER), Some(OTHER)]
    );
    assert_eq!(after_mode(&Vec::new(), &placements, SHELL), vec![]);
}

#[test]
fn a_placement_moves_the_windows_under_its_key_only() {
    let windows = vec![window(SHELL, "note"), window("mpv", "note"), window(SHELL, "Home")];
    assert_eq!(affected(&windows, &title("note"), SHELL), vec![0]);
    assert_eq!(affected(&windows, &app(SHELL), SHELL), vec![0, 2]);
    assert_eq!(affected(&windows, &app("mpv"), SHELL), vec![1]);
    assert_eq!(affected(&windows, &app("plex"), SHELL), Vec::<usize>::new());
}

#[test]
fn setting_a_placement_says_where_its_windows_go_now() {
    let mut placements = Placements::new();
    let windows = vec![window("mpv", "film"), window(SHELL, "note"), window("mpv", "pip")];
    assert_eq!(
        set_placement(&mut placements, &windows, app("mpv"), Some(CORNER), SHELL),
        vec![(0, Some(CORNER)), (2, Some(CORNER))]
    );
    assert_eq!(
        set_placement(&mut placements, &windows, title("note"), Some(OTHER), SHELL),
        vec![(1, Some(OTHER))]
    );
    assert_eq!(
        set_placement(&mut placements, &windows, app("mpv"), None, SHELL),
        vec![(0, None), (2, None)]
    );
    assert_eq!(place(&windows[1], &placements, SHELL), Some(OTHER));
}

#[test]
fn a_window_is_told_of_its_place_once() {
    let mut toplevel = Toplevel {
        size: None,
        fullscreen: false,
        activated: false,
        decorated: false,
        configured: true,
    };
    let whole = Size { w: 1920, h: 1080 };
    assert!(toplevel.fullscreen(whole));
    assert!(toplevel.fullscreen && toplevel.activated);
    assert!(!toplevel.fullscreen(whole));
    assert!(toplevel.place_at(whole));
    assert!(!toplevel.fullscreen);
    assert!(!toplevel.place_at(whole));
    assert!(toplevel.place_at(Size { w: 640, h: 360 }));
    assert!(toplevel.decorate());
    assert!(toplevel.decorated);
    let mut early = Toplevel { configured: false, ..toplevel };
    assert!(!early.fullscreen(whole));
    assert_eq!(early.size, Some(whole));
    assert!(!early.decorate());
}

#[test]
fn a_window_is_mapped_only_where_it_is_not() {
    let origin = Point { x: 0, y: 0 };
    assert!(map_at(None, origin));
    assert!(!map_at(Some(origin), origin));
    assert!(map_at(Some(Point { x: 1, y: 0 }), origin));
}

#[test]
fn the_first_configure_is_sent_once() {
    assert!(needs_first_configure(Some(false)));
    assert!(!needs_first_configure(Some(true)));
    assert!(!needs_first_configure(None));
}

#[test]
fn a_commit_places_a_window_once_it_is_on_screen() {
    assert_eq!(
        on_commit(true, Some(true)),
        AfterCommit { place: false, refocus: false, redraw: false }
    );
    assert_eq!(
        on_commit(false, Some(true)),
        AfterCommit { place: true, refocus: true, redraw: true }
    );
    assert_eq!(
        on_commit(false, Some(false)),
        AfterCommit { place: false, refocus: true, redraw: true }
    );
    assert_eq!(
        on_commit(false, None),
        AfterCommit { place: false, refocus: false, redraw: true }
    );
}

#[test]
fn a_client_that_is_gone_does_not_keep_the_box_awake() {
    let mut inhibitors = Inhibitors::new();
    assert!(!inhibitors.idle_inhibited(&vec![1, 2]));
    inhibitors.inhibit(1);
    inhibitors.inhibit(2);
    inhibitors.inhibit(1);
    assert_eq!(inhibitors.surfaces, vec![1, 2]);
    assert!(inhibitors.idle_inhibited(&vec![2, 3]));
    assert_eq!(inhibitors.surfaces, vec![2]);
    inhibitors.uninhibit(2);
    assert!(!inhibitors.idle_inhibited(&vec![2]));
    inhibitors.inhibit(4);
    assert!(!inhibitors.idle_inhibited(&vec![]));
}

#[test]
fn a_layer_that_asks_for_the_keyboard_comes_before_the_windows() {
    let names = Names::resolve(None, None);
    let windows = vec![window(SHELL, "Home"), window("mpv", "film")];
    assert_eq!(keyboard_target(&vec![true, false, true, false], &windows, &names), Holder::Layer(2));
    assert_eq!(keyboard_target(&vec![false], &windows, &names), Holder::Window(0));
    assert_eq!(keyboard_target(&vec![], &vec![], &names), Holder::Nobody);
}

#[test]
fn the_keyboard_changes_hands_only_when_the_answer_does() {
    assert!(!focus_changes(None, None));
    assert!(!focus_changes(Some(1), Some(1)));
    assert!(focus_changes(Some(1), Some(2)));
    assert!(focus_changes(Some(1), None));
    assert!(focus_changes(None, Some(1)));
}

#[test]
fn the_pointer_lands_on_what_is_in_front() {
    let windows = || vec![None, Some("film"), Some("below")];
    assert_eq!(
        surface_under(Under::Surface("ui"), windows(), Under::Surface("wall")),
        Some("ui")
    );
    assert_eq!(surface_under(Under::Through, windows(), Under::Nothing), Some("film"));
    assert_eq!(surface_under(Under::Nothing, windows(), Under::Nothing), Some("film"));
    assert_eq!(surface_under(Under::Unplaced, windows(), Under::Surface("wall")), None);
    assert_eq!(
        surface_under(Under::Nothing, vec![None], Under::Surface("wall")),
        Some("wall")
    );
    assert_eq!(surface_under::<&str>(Under::Nothing, vec![], Under::Through), None);
}

#[test]
fn the_front_of_the_screen_is_the_end_of_the_stack() {
    let names = Names::resolve(None, None);
    let windows = vec![
        window(SHELL, "tvbox-overlay"),
        window("mpv", "film"),
        window(SHELL, "Home"),
    ];
    assert_eq!(front_to_back(&windows, &names), vec![0, 2, 1]);
}
