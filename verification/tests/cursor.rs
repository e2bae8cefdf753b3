use tvbox_wc::cursor::{Image, Pointer, IDLE};

#[test]
fn a_pointer_that_stands_still_is_hidden_and_comes_back() {
    let mut pointer = Pointer::new(1000);
    assert!(pointer.drawn(Image::Surface { alive: true }));
    assert!(!pointer.rest(1000 + IDLE - 1));
    assert!(pointer.visible);
    assert!(pointer.rest(1000 + IDLE));
    assert!(!pointer.visible);
    assert!(!pointer.drawn(Image::Surface { alive: true }));
    // Hidden already, so nothing on screen changes.
    assert!(!pointer.rest(1000 + 2 * IDLE));
    pointer.moved(10_000);
    assert!(pointer.visible);
    assert_eq!(pointer.moved_at, 10_000);
}

#[test]
fn only_a_living_surface_is_drawn() {
    let pointer = Pointer::new(0);
    assert!(!pointer.drawn(Image::Unset));
    assert!(!pointer.drawn(Image::Surface { alive: false }));
}
