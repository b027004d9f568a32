use picky::thumbnails::{thumbnail_png, thumbnail_png_from, thumbnail_request};

#[test]
fn thumbnail_requests_name_the_window_and_size() {
    assert_eq!(
        thumbnail_request(42),
        "{\"WindowThumbnail\":{\"id\":42,\"max_height\":160,\"max_width\":256}}"
    );
}

#[test]
fn thumbnail_replies_are_decoded_from_base64() {
    assert_eq!(thumbnail_png(7, 7, "aGk=").unwrap(), b"hi".to_vec());
    assert_eq!(thumbnail_png(7, 7, "").unwrap(), Vec::<u8>::new());
}

#[test]
fn thumbnail_replies_for_other_windows_or_bad_data_fail() {
    assert_eq!(
        thumbnail_png(7, 8, "aGk=").unwrap_err(),
        "niri returned thumbnail for window 8, expected 7"
    );
    assert_eq!(
        thumbnail_png(7, 7, "!!!!").unwrap_err(),
        "failed to decode thumbnail PNG: Invalid symbol 33, offset 0."
    );
    assert_eq!(
        thumbnail_png_from(Err("x".to_string())).unwrap_err(),
        "failed to decode thumbnail PNG: x"
    );
}
