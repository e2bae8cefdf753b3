use tvbox_wc::health::{shorten, FrameSummary, Health, Presentation, MAX_ERROR_LEN};

#[test]
fn a_frame_is_counted_by_where_each_element_went() {
    let summary = FrameSummary::tally(
        &[
            Presentation::ZeroCopy,
            Presentation::Rendering,
            Presentation::Rendering,
            Presentation::Skipped,
        ],
        true,
        1,
        false,
    );
    assert_eq!(summary.elements, 4);
    assert_eq!(summary.scanned_out, 1);
    assert_eq!(summary.composited, 2);
    assert_eq!(summary.skipped, 1);
    assert_eq!(summary.primary, "element");
    assert_eq!(summary.overlays, 1);
}

#[test]
fn an_empty_frame_shows_the_swapchain() {
    let summary = FrameSummary::tally(&[], false, 0, false);
    assert_eq!(summary.elements, 0);
    assert_eq!(summary.primary, "swapchain");
}

#[test]
fn a_long_error_is_cut_on_a_character_boundary() {
    let mut health = Health::default();
    let long = "é".repeat(MAX_ERROR_LEN);
    health.note_error(&long);
    let kept = health.last_error.unwrap();
    assert!(kept.len() <= MAX_ERROR_LEN);
    assert!(kept.starts_with("\"é"));
}

#[test]
fn an_error_is_kept_in_its_debug_form() {
    let mut health = Health::default();
    health.note_error(&Some(3));
    assert_eq!(health.last_error, Some("Some(3)".to_owned()));
}

#[test]
fn a_short_error_is_kept_whole_and_a_long_one_up_to_the_limit() {
    let exact = "a".repeat(MAX_ERROR_LEN);
    assert_eq!(shorten(exact.clone()), exact);
    assert_eq!(shorten(format!("{exact}b")), exact);
    // The two bytes of the last character do not both fit.
    let odd = format!("{}é", "a".repeat(MAX_ERROR_LEN - 1));
    assert_eq!(shorten(odd), "a".repeat(MAX_ERROR_LEN - 1));
    // Nor do the four of this one.
    let wide = format!("{}😀", "a".repeat(MAX_ERROR_LEN - 3));
    assert_eq!(shorten(wide), "a".repeat(MAX_ERROR_LEN - 3));
}

#[test]
fn frames_and_claims_are_counted() {
    let mut health = Health::default();
    let frame = FrameSummary::tally(&[Presentation::ZeroCopy], true, 0, true);
    health.frame_queued(frame);
    health.frame_queued(frame);
    health.render_failed("no memory".to_owned());
    health.queue_failed("busy".to_owned());
    health.hdr_changed(true);
    health.hdr_changed(false);
    health.hdr_failed("refused".to_owned());
    assert_eq!(health.frames_queued, 2);
    assert_eq!(health.render_failures, 1);
    assert_eq!(health.queue_failures, 1);
    assert_eq!(health.hdr_claims, 1);
    assert_eq!(health.hdr_releases, 1);
    assert_eq!(health.hdr_failures, 1);
    assert_eq!(health.flip_watchdog_fired, 0);
    assert_eq!(health.last_error, Some("refused".to_owned()));
    assert_eq!(health.last_frame, Some(frame));
}

#[test]
fn a_counter_stops_at_its_end() {
    let mut health = Health::default();
    health.queue_failures = u64::MAX;
    health.queue_failed(String::new());
    assert_eq!(health.queue_failures, u64::MAX);
}

#[test]
fn health_is_reported_by_its_names() {
    let mut health = Health::default();
    health.frame_queued(FrameSummary::tally(&[Presentation::Skipped], false, 2, true));
    health.note_text("why".to_owned());
    let text = tvbox_wc::ipc::reply(None, Ok(health.json()));
    assert_eq!(
        text,
        "{\"id\":null,\"ok\":{\"frames_queued\":1,\"render_failures\":0,\"queue_failures\":0,\"flip_watchdog_fired\":0,\"hdr_claims\":0,\"hdr_releases\":0,\"hdr_failures\":0,\"last_error\":\"why\",\"last_frame\":{\"elements\":1,\"scanned_out\":0,\"composited\":0,\"skipped\":1,\"primary\":\"swapchain\",\"overlays\":2,\"cursor_plane\":true}}}"
    );
}

#[test]
fn an_error_is_kept_as_it_prints() {
    let mut health = Health::default();
    health.note_error(&Some(5u8));
    assert_eq!(health.last_error, Some("Some(5)".to_owned()));
}

#[test]
fn a_frame_of_nothing_is_the_default() {
    let frame = FrameSummary::default();
    assert_eq!(frame.elements, 0);
    assert_eq!(frame.primary, "");
    assert!(!frame.cursor_plane);
}
