use tvbox_wc::backend::mode::{DisplayMode, OutputMode, Timings, DBLSCAN, INTERLACE, PREFERRED};
use tvbox_wc::backend::nodes::{candidates, render_node, scanout_formats, CARD, RENDER_NODE};
use tvbox_wc::backend::pace::{FrameOutcome, Pace, RETRY_AFTER};
use tvbox_wc::backend::{
    connector_name, on_session_event, refresh_mhz_from, Connector, Hotplug, SessionStep, Tty,
};
use tvbox_wc::ipc::{HdrInfo, ModeInfo};
use tvbox_wc::kms::hdr::{HdrProperties, Step};

#[test]
fn refresh_comes_from_the_timings_not_the_rounded_field() {
    // The two 1080p film modes an LG offers. They differ by 1000/1001, and the
    // kernel's integer vrefresh calls both of them 24 - playing 23.976 content
    // on a 24 Hz output judders with nothing dropped, so they must stay apart.
    assert_eq!(refresh_mhz_from(74250, 2750, 1125, false, false, 24), 24000);
    assert_eq!(refresh_mhz_from(74176, 2750, 1125, false, false, 24), 23976);
}

#[test]
fn the_panel_rate_that_is_not_quite_sixty() {
    // 1360x768 on the box's LG: 60.015 Hz, which no integer field can carry.
    assert_eq!(refresh_mhz_from(85500, 1792, 795, false, false, 60), 60015);
}

#[test]
fn interlace_and_doublescan_are_accounted_for() {
    assert_eq!(refresh_mhz_from(74250, 2200, 1125, true, false, 60), 60000);
    assert_eq!(refresh_mhz_from(74250, 2200, 1125, false, true, 15), 15000);
}

#[test]
fn a_mode_with_no_timings_falls_back_to_the_reported_rate() {
    assert_eq!(refresh_mhz_from(0, 0, 0, false, false, 50), 50000);
}

fn mode(w: u16, h: u16, clock: u32, htotal: u16, vtotal: u16, kind: u32) -> DisplayMode {
    DisplayMode {
        timings: Timings {
            clock,
            hdisplay: w,
            hsync_start: 0,
            hsync_end: 0,
            htotal,
            hskew: 0,
            vdisplay: h,
            vsync_start: 0,
            vsync_end: 0,
            vtotal,
            vscan: 0,
            vrefresh: 24,
            flags: 0,
            kind,
        },
        name: Vec::new(),
    }
}

fn film_24() -> DisplayMode {
    mode(1920, 1080, 74250, 2750, 1125, 0)
}

fn film_23_976() -> DisplayMode {
    mode(1920, 1080, 74176, 2750, 1125, 0)
}

fn panel() -> DisplayMode {
    mode(1360, 768, 85500, 1792, 795, PREFERRED)
}

fn connector() -> Connector {
    Connector {
        name: "HDMIA-1".to_owned(),
        connected: true,
        modes: vec![film_24(), film_23_976(), panel()],
        crtcs: vec![42, 43],
        size: Some((600, 340)),
    }
}

fn with_output() -> Tty {
    let mut tty = Tty::new(true);
    tty.device_opened();
    tty.output_up(42, None);
    tty
}

#[test]
fn a_mode_is_described_by_its_size_and_rate() {
    assert_eq!(
        film_23_976().describe(),
        ModeInfo { w: 1920, h: 1080, refresh: 23976, preferred: false }
    );
    assert_eq!(
        panel().describe(),
        ModeInfo { w: 1360, h: 768, refresh: 60015, preferred: true }
    );
    let mut interlaced = mode(1920, 1080, 74250, 2200, 1125, 0);
    interlaced.timings.flags = INTERLACE;
    assert_eq!(interlaced.refresh_mhz(), 60000);
    interlaced.timings.flags = DBLSCAN | 1;
    assert_eq!(interlaced.refresh_mhz(), 15000);
}

#[test]
fn modes_that_differ_in_anything_are_not_the_same() {
    let mut other = panel();
    assert!(panel().same(&other));
    other.name = vec![1];
    assert!(!panel().same(&other));
    assert!(!film_24().same(&film_23_976()));
}

#[test]
fn an_output_comes_up_at_the_mode_the_display_asks_for() {
    let mut tty = Tty::new(true);
    let off = Connector { connected: false, ..connector() };
    let list = vec![off, connector()];
    assert_eq!(tty.init_output(&list), Err("no device opened".to_owned()));
    tty.device_opened();
    let bringup = tty.init_output(&list).unwrap().unwrap();
    assert_eq!(bringup.connector, 1);
    assert_eq!(bringup.mode, 2);
    assert_eq!(bringup.crtc, 42);
    assert_eq!(bringup.output, OutputMode { w: 1360, h: 768, refresh: 24000 });
    assert_eq!(bringup.size, (600, 340));
    tty.output_up(bringup.crtc, None);
    assert_eq!(tty.init_output(&list), Ok(None));
}

#[test]
fn what_cannot_be_brought_up_is_told_apart_from_what_is_not_there() {
    let mut tty = Tty::new(true);
    tty.device_opened();
    assert_eq!(tty.init_output(&vec![]), Ok(None));
    assert_eq!(tty.init_output(&vec![Connector { connected: false, ..connector() }]), Ok(None));
    assert_eq!(
        tty.init_output(&vec![Connector { modes: vec![], ..connector() }]),
        Err("connector advertises no mode".to_owned())
    );
    assert_eq!(
        tty.init_output(&vec![Connector { crtcs: vec![], ..connector() }]),
        Err("no CRTC for the connector".to_owned())
    );
    let bare = Connector { modes: vec![film_24()], size: None, ..connector() };
    let bringup = tty.init_output(&vec![bare]).unwrap().unwrap();
    assert_eq!(bringup.mode, 0);
    assert_eq!(bringup.size, (0, 0));
}

#[test]
fn a_mode_is_picked_by_size_and_by_rate() {
    let tty = with_output();
    let there = Some(connector());
    assert_eq!(tty.set_mode(&there, "HDMIA-1", 1920, 1080, None), Ok(0));
    assert_eq!(tty.set_mode(&there, "HDMIA-1", 1920, 1080, Some(23976)), Ok(1));
    assert_eq!(tty.set_mode(&there, "HDMIA-1", 1920, 1080, Some(23977)), Ok(1));
    assert_eq!(tty.set_mode(&there, "HDMIA-1", 1360, 768, Some(60014)), Ok(2));
    assert_eq!(
        tty.set_mode(&there, "HDMIA-1", 1360, 768, Some(60013)),
        Err("no mode 1360x768 on HDMIA-1".to_owned())
    );
}

#[test]
fn a_mode_that_is_not_there_is_refused_with_a_reason() {
    let tty = with_output();
    let there = Some(connector());
    assert_eq!(
        tty.set_mode(&there, "HDMIA-1", 1234, 567, None),
        Err("no mode 1234x567 on HDMIA-1".to_owned())
    );
    assert_eq!(
        tty.set_mode(&there, "HDMIA-2", 1920, 1080, None),
        Err("no output named HDMIA-2".to_owned())
    );
    // 67456 is 1920 in sixteen bits.
    assert_eq!(
        tty.set_mode(&there, "HDMIA-1", 67456, 1080, None),
        Err("67456x1080 is not a mode size".to_owned())
    );
    assert_eq!(
        tty.set_mode(&there, "HDMIA-2", 0, -1, None),
        Err("0x-1 is not a mode size".to_owned())
    );
    assert_eq!(
        tty.set_mode(&None, "HDMIA-1", 1920, 1080, None),
        Err("failed to read the connector".to_owned())
    );
    let mut tty = Tty::new(true);
    assert_eq!(
        tty.set_mode(&there, "HDMIA-1", 1920, 1080, None),
        Err("no device opened".to_owned())
    );
    tty.device_opened();
    assert_eq!(
        tty.set_mode(&there, "HDMIA-1", 1920, 1080, None),
        Err("no output".to_owned())
    );
}

#[test]
fn a_display_that_comes_back_is_put_on_the_mode_that_was_asked_for() {
    let mut tty = with_output();
    assert_eq!(
        tty.mode_set(&film_23_976()),
        OutputMode { w: 1920, h: 1080, refresh: 23976 }
    );
    assert!(tty.awake());
    assert_eq!(tty.on_connector_change(&Some(connector())), None);
    assert_eq!(
        tty.on_connector_change(&Some(Connector { connected: false, ..connector() })),
        None
    );
    assert!(!tty.awake());
    assert!(!tty.may_render());
    assert_eq!(tty.on_connector_change(&Some(connector())), Some(1));
    assert!(tty.awake());
    assert!(tty.may_render());
}

#[test]
fn a_display_that_no_longer_offers_the_mode_gets_the_one_it_asks_for() {
    let mut tty = with_output();
    tty.mode_set(&film_23_976());
    let off = Some(Connector { connected: false, ..connector() });
    tty.on_connector_change(&off);
    let other = Connector { modes: vec![film_24(), panel()], ..connector() };
    assert_eq!(tty.on_connector_change(&Some(other)), Some(1));
    tty.on_connector_change(&off);
    let plain = Connector { modes: vec![film_24()], ..connector() };
    assert_eq!(tty.on_connector_change(&Some(plain)), Some(0));
    tty.on_connector_change(&off);
    let empty = Connector { modes: vec![], ..connector() };
    assert_eq!(tty.on_connector_change(&Some(empty)), None);
    assert!(tty.may_render());
    assert_eq!(tty.on_connector_change(&None), None);
}

#[test]
fn a_frame_waits_for_the_one_in_flight() {
    let mut tty = with_output();
    assert!(tty.may_render());
    assert!(!tty.frame_drawn(FrameOutcome::Queued));
    assert!(!tty.may_render());
    assert!(tty.queue_redraw());
    assert!(!tty.queue_redraw());
    tty.redraw_dispatched();
    assert!(!tty.may_render());
    assert!(!tty.on_vblank(7));
    assert!(!tty.may_render());
    assert!(tty.on_vblank(42));
    assert!(tty.may_render());
    assert!(!tty.frame_drawn(FrameOutcome::Empty));
    assert!(!tty.may_render());
}

#[test]
fn a_frame_that_fails_is_tried_again() {
    let mut tty = with_output();
    assert!(tty.frame_drawn(FrameOutcome::Failed));
    assert!(tty.may_render());
    assert!(tty.frame_drawn(FrameOutcome::QueueFailed));
    assert!(tty.may_render());
    assert_eq!(RETRY_AFTER, 50);
}

#[test]
fn without_an_output_nothing_is_drawn() {
    let mut tty = Tty::new(true);
    assert!(!tty.may_render());
    assert!(!tty.queue_redraw());
    assert!(!tty.on_vblank(42));
    assert!(!tty.frame_drawn(FrameOutcome::Failed));
    assert!(!tty.awake());
    assert_eq!(tty.hdr_state(), (false, false));
    assert_eq!(tty.outputs(&Some(connector()), &panel()).len(), 0);
}

#[test]
fn the_session_gains_and_loses_the_device() {
    let mut tty = Tty::new(true);
    assert_eq!(on_session_event(&mut tty, false), SessionStep::Nothing);
    assert!(!tty.is_active());
    tty.device_opened();
    assert_eq!(on_session_event(&mut tty, true), SessionStep::Resume { reset: false });
    tty.output_up(42, None);
    tty.frame_drawn(FrameOutcome::Queued);
    assert_eq!(on_session_event(&mut tty, false), SessionStep::Pause);
    tty.on_vblank(42);
    tty.queue_redraw();
    assert!(!tty.may_render());
    tty.frame_drawn(FrameOutcome::Queued);
    assert_eq!(on_session_event(&mut tty, true), SessionStep::Resume { reset: true });
    assert!(tty.may_render());
}

#[test]
fn the_output_is_reported_to_the_shell() {
    let mut tty = with_output();
    let list = tty.outputs(&Some(connector()), &film_24());
    assert_eq!(list.len(), 1);
    assert_eq!(list[0].name, "HDMIA-1");
    assert_eq!(list[0].current, Some(film_24().describe()));
    assert_eq!(list[0].modes.len(), 3);
    assert_eq!(list[0].modes[1].refresh, 23976);
    assert!(list[0].connected);
    assert_eq!(list[0].hdr, HdrInfo { supported: false, on: false });
    tty.on_connector_change(&Some(Connector { connected: false, ..connector() }));
    assert!(!tty.outputs(&Some(connector()), &film_24())[0].connected);
    assert_eq!(tty.outputs(&None, &film_24()).len(), 0);
}

#[test]
fn a_colour_space_is_claimed_and_given_back() {
    let hdr = HdrProperties {
        colorspace: 1,
        metadata: 2,
        max_bpc: Some(3),
        sdr_bpc: 8,
        bt2020_rgb: 9,
        default_colorspace: 0,
        blob: None,
    };
    let mut tty = with_output();
    let there = Some(connector());
    assert_eq!(
        tty.set_hdr(&there, "HDMIA-1"),
        Err("this connector has no HDR properties".to_owned())
    );
    assert_eq!(tty.hdr_request(true, 77), vec![]);
    assert_eq!(tty.hdr_committed(true, 77, true, true), None);
    tty.output_up(42, Some(hdr));
    assert_eq!(tty.hdr_state(), (true, false));
    assert_eq!(tty.set_hdr(&there, "other"), Err("no output named other".to_owned()));
    assert_eq!(tty.set_hdr(&there, "HDMIA-1"), Ok(()));
    assert_eq!(tty.hdr_request(true, 77), vec![(1, 9), (2, 77), (3, 10)]);
    assert_eq!(
        tty.hdr_committed(true, 77, true, false),
        Some(Step::Retry(vec![(1, 9), (2, 77)]))
    );
    assert_eq!(
        tty.hdr_committed(true, 77, false, true),
        Some(Step::Done { destroy: None })
    );
    assert_eq!(tty.hdr_state(), (true, true));
    assert_eq!(tty.hdr_request(false, 0), vec![(1, 0), (2, 0), (3, 8)]);
    assert_eq!(
        tty.hdr_committed(false, 0, true, true),
        Some(Step::Done { destroy: Some(77) })
    );
    assert_eq!(tty.hdr_state(), (true, false));
}

#[test]
fn a_connector_is_called_by_its_kind_and_number() {
    assert_eq!(connector_name("HDMIA", 1), "HDMIA-1");
    assert_eq!(connector_name("eDP", 120), "eDP-120");
}

fn names(list: &[&str]) -> Vec<String> {
    list.iter().map(|name| (*name).to_owned()).collect()
}

#[test]
fn devices_are_tried_in_the_order_of_their_names() {
    let there = names(&["renderD129", "card1", "by-path", "card0", "renderD128", "card10", "car"]);
    assert_eq!(candidates(&there, CARD), names(&["card0", "card1", "card10"]));
    assert_eq!(candidates(&there, RENDER_NODE), names(&["renderD128", "renderD129"]));
    assert_eq!(candidates(&vec![], CARD), names(&[]));
}

#[test]
fn clients_allocate_on_a_render_node_where_there_is_one() {
    assert_eq!(render_node(Some(1), Some(2), Some(3)), Some(1));
    assert_eq!(render_node(None, Some(2), Some(3)), Some(2));
    assert_eq!(render_node(None, None, Some(3)), Some(3));
    assert_eq!(render_node::<u32>(None, None, None), None);
}

#[test]
fn a_display_that_arrives_is_brought_up_and_one_that_returns_is_restored() {
    let mut tty = Tty::new(true);
    assert_eq!(
        tty.hotplug(&vec![], &None),
        Hotplug::Failed("no device opened".to_owned())
    );
    tty.device_opened();
    assert_eq!(tty.hotplug(&vec![], &None), Hotplug::Nothing);
    let Hotplug::BringUp(bringup) = tty.hotplug(&vec![connector()], &None) else {
        panic!("nothing to bring up")
    };
    assert_eq!(bringup.mode, 2);
    assert_eq!(
        tty.hotplug(&vec![Connector { modes: vec![], ..connector() }], &None),
        Hotplug::Failed("connector advertises no mode".to_owned())
    );
    tty.output_up(42, None);
    let off = Some(Connector { connected: false, ..connector() });
    assert_eq!(tty.hotplug(&vec![connector()], &off), Hotplug::Nothing);
    assert!(!tty.awake());
    assert_eq!(tty.hotplug(&vec![], &Some(connector())), Hotplug::Restore(2));
    assert!(tty.awake());
}

#[test]
fn formats_are_listed_once_and_in_order() {
    assert_eq!(
        scanout_formats(&vec![(2, 0), (1, 5), (2, 0), (1, 0), (1, 5)]),
        vec![(1, 0), (1, 5), (2, 0)]
    );
}

#[test]
fn a_display_without_a_mode_waits_for_the_next_change() {
    let mut pace = Pace::new();
    assert!(!pace.draw(FrameOutcome::Queued));
    pace.go();
    assert!(!pace.is_ready(true));
    // It comes back with a frame still in flight, and nothing asks for another.
    pace.come_back();
    assert!(pace.is_ready(true));
    assert!(!pace.redraw_queued);
    // The next change schedules one.
    assert!(pace.ask());
    assert!(!pace.ask());
    pace.dispatch();
    assert!(pace.is_ready(true));
}
