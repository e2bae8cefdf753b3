use tvbox_wc::kms::framebuffer::{
    plane_words, scanout_code, usable_modifier, DirectFramebufferExporter, Imports, Route,
    Source, MODIFIER_INVALID,
};
use tvbox_wc::kms::hdr::{HdrOutputMetadata, HdrProperties, Property, Step, EOTF_PQ, REFUSED};

fn property(handle: u32, name: &str, value: u64) -> Property {
    Property { handle, value, name: Some(name.to_owned()), choices: vec![] }
}

fn colorspace(handle: u32) -> Property {
    Property {
        choices: vec![
            (0, Some("Default".to_owned())),
            (3, None),
            (9, Some("BT2020_RGB".to_owned())),
        ],
        ..property(handle, "Colorspace", 0)
    }
}

fn found() -> HdrProperties {
    HdrProperties::find(&vec![
        property(10, "EDID", 5),
        colorspace(11),
        property(12, "HDR_OUTPUT_METADATA", 0),
        property(13, "max bpc", 12),
    ])
    .unwrap()
}

#[test]
fn a_claim_needs_the_connector_properties_for_it() {
    let hdr = found();
    assert_eq!(hdr.colorspace, 11);
    assert_eq!(hdr.metadata, 12);
    assert_eq!(hdr.max_bpc, Some(13));
    assert_eq!(hdr.sdr_bpc, 12);
    assert_eq!(hdr.bt2020_rgb, 9);
    assert_eq!(hdr.default_colorspace, 0);
    assert!(!hdr.claimed());
    assert_eq!(HdrProperties::find(&vec![colorspace(11)]), None);
    assert_eq!(HdrProperties::find(&vec![property(12, "HDR_OUTPUT_METADATA", 0)]), None);
    assert_eq!(
        HdrProperties::find(&vec![
            property(11, "Colorspace", 0),
            property(12, "HDR_OUTPUT_METADATA", 0)
        ]),
        None
    );
    let unnamed = Property { name: None, ..property(14, "", 0) };
    let bare =
        HdrProperties::find(&vec![colorspace(11), unnamed, property(12, "HDR_OUTPUT_METADATA", 0)])
            .unwrap();
    assert_eq!(bare.max_bpc, None);
    assert_eq!(bare.sdr_bpc, 8);
}

#[test]
fn a_claim_asks_for_pq_and_a_deeper_link() {
    let hdr = found();
    assert_eq!(hdr.request(true, 77, true), vec![(11, 9), (12, 77), (13, 10)]);
    assert_eq!(hdr.request(true, 77, false), vec![(11, 9), (12, 77)]);
    assert_eq!(hdr.request(false, 0, true), vec![(11, 0), (12, 0), (13, 12)]);
    let metadata = HdrOutputMetadata::pq();
    assert_eq!(metadata.eotf, EOTF_PQ);
    assert_eq!(metadata.metadata_type, 0);
    assert_eq!(metadata.max_cll, 0);
}

#[test]
fn a_blob_that_is_replaced_or_refused_is_destroyed() {
    let mut hdr = found();
    assert_eq!(hdr.after_commit(true, 77, true, true), Step::Done { destroy: None });
    assert!(hdr.claimed());
    assert_eq!(hdr.after_commit(true, 78, true, true), Step::Done { destroy: Some(77) });
    assert_eq!(
        hdr.after_commit(true, 79, true, false),
        Step::Retry(vec![(11, 9), (12, 79)])
    );
    assert_eq!(hdr.after_commit(true, 79, false, false), Step::Refused { destroy: Some(79) });
    assert!(hdr.claimed());
    assert_eq!(
        hdr.after_commit(false, 0, true, false),
        Step::Retry(vec![(11, 0), (12, 0)])
    );
    assert_eq!(hdr.after_commit(false, 0, false, false), Step::Refused { destroy: None });
    assert!(hdr.claimed());
    assert_eq!(hdr.after_commit(false, 0, false, true), Step::Done { destroy: Some(78) });
    assert!(!hdr.claimed());
    assert_eq!(REFUSED, "the driver refused the colour space");
}

#[test]
fn a_link_without_a_depth_is_not_retried() {
    let mut hdr = HdrProperties { max_bpc: None, ..found() };
    assert_eq!(hdr.request(true, 77, true), vec![(11, 9), (12, 77)]);
    assert_eq!(hdr.after_commit(true, 77, true, false), Step::Refused { destroy: Some(77) });
    assert!(!hdr.claimed());
}

#[test]
fn an_alpha_channel_is_dropped_where_it_is_asked_for() {
    assert_eq!(scanout_code(1, Some(2), true), 2);
    assert_eq!(scanout_code(1, Some(2), false), 1);
    assert_eq!(scanout_code(1, None, true), 1);
}

#[test]
fn a_buffer_without_a_modifier_is_left_to_the_renderer() {
    let exporter = DirectFramebufferExporter;
    assert_eq!(exporter.route(Source::Client(None)), Route::Render);
    assert_eq!(exporter.route(Source::Client(Some(MODIFIER_INVALID))), Route::Render);
    assert_eq!(exporter.route(Source::Client(Some(0))), Route::Import);
    assert_eq!(exporter.route(Source::Own), Route::Gbm);
    assert!(exporter.can_add_framebuffer(Source::Client(None)));
    assert!(exporter.can_add_framebuffer(Source::Own));
    assert_eq!(usable_modifier(MODIFIER_INVALID), None);
    assert_eq!(usable_modifier(5), Some(5));
}

#[test]
fn a_handle_is_closed_once_however_many_planes_share_it() {
    let mut imports = Imports::new();
    imports.add(7);
    imports.add(7);
    imports.add(9);
    assert!(imports.wants_more());
    assert_eq!(imports.handles(), [Some(7), Some(7), Some(9), None]);
    imports.add(7);
    assert!(!imports.wants_more());
    assert_eq!(imports.to_close(), vec![7, 9]);
}

#[test]
fn planes_that_are_not_there_count_as_zero() {
    assert_eq!(plane_words(&vec![1920, 960]), [1920, 960, 0, 0]);
    assert_eq!(plane_words(&vec![1, 2, 3, 4, 5]), [1, 2, 3, 4]);
    assert_eq!(plane_words(&vec![]), [0, 0, 0, 0]);
}
