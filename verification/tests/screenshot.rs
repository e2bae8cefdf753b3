use tvbox_wc::screenshot::{check_opened, check_path, check_target, encode_png, Found, Opened};

#[test]
fn a_relative_path_is_refused() {
    assert!(check_target("shot.png", Found::Nothing).is_err());
}

#[test]
fn a_path_that_does_not_start_at_the_root_is_refused_with_a_reason() {
    let why = Err("a screenshot path must be absolute".to_owned());
    assert_eq!(check_path("shot.png"), why);
    assert_eq!(check_path(""), why);
    assert_eq!(check_path("/shot.png"), Ok(()));
}

#[test]
fn only_a_regular_file_or_nothing_may_be_there() {
    assert_eq!(check_target("/s.png", Found::File), Ok(()));
    assert_eq!(check_target("/s.png", Found::Nothing), Ok(()));
    assert_eq!(
        check_target("/s.png", Found::Other),
        Err("/s.png is not a regular file".to_owned())
    );
    assert_eq!(
        check_target("/s.png", Found::Unknown),
        Err("failed to inspect /s.png".to_owned())
    );
}

#[test]
fn what_is_opened_has_to_be_a_file_of_our_own() {
    assert_eq!(check_opened("/s.png", Opened { is_file: true, uid: 7 }, 7), Ok(()));
    assert_eq!(
        check_opened("/s.png", Opened { is_file: false, uid: 7 }, 7),
        Err("/s.png is not a regular file".to_owned())
    );
    assert_eq!(
        check_opened("/s.png", Opened { is_file: true, uid: 0 }, 7),
        Err("/s.png belongs to another user".to_owned())
    );
}

#[test]
fn a_picture_is_encoded_as_it_is() {
    let pixels: Vec<u8> = (0..2 * 3 * 4).collect();
    let file = encode_png(2, 3, &pixels).unwrap();
    assert_eq!(file[..8], [137, 80, 78, 71, 13, 10, 26, 10]);
    let decoder = png::Decoder::new(std::io::Cursor::new(file));
    let mut reader = decoder.read_info().unwrap();
    let mut read = vec![0; reader.output_buffer_size()];
    let info = reader.next_frame(&mut read).unwrap();
    assert_eq!((info.width, info.height), (2, 3));
    assert_eq!(info.color_type, png::ColorType::Rgba);
    assert_eq!(info.bit_depth, png::BitDepth::Eight);
    assert_eq!(read, pixels);
}

#[test]
fn a_picture_that_its_pixels_do_not_fill_is_refused() {
    assert_eq!(encode_png(0, 3, &[]), Err("failed to write the header".to_owned()));
    assert_eq!(encode_png(3, 0, &[]), Err("failed to write the header".to_owned()));
    assert_eq!(encode_png(1, 1, &[0, 0, 0]), Err("failed to write the image".to_owned()));
    assert_eq!(encode_png(-1, -1, &[0; 4]), Err("failed to write the image".to_owned()));
}
