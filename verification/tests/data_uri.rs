use pwr_viewgen::data_uri::is_valid_data_uri;

#[test]
fn base64_data_uris_with_media_type_pass() {
    assert!(is_valid_data_uri(
        "data:image/png;base64,R0lGODlhAQABAIAAAP///wAAACwAAAAAAQABAAACAkQBADs="
    ));
    assert!(is_valid_data_uri("data:audio/ogg;base64,T2dnUwACAAAAAAAAAAA="));
    assert!(is_valid_data_uri("data:a/b;base64,"));
}

#[test]
fn malformed_data_uris_fail() {
    assert!(!is_valid_data_uri("data:no-slash-here;base64,QUJD"));
    assert!(!is_valid_data_uri("data:audio/ogg;hex,QUJD"));
    assert!(!is_valid_data_uri("http://x/y;base64,QUJD"));
    assert!(!is_valid_data_uri("data:audio/ogg"));
    assert!(!is_valid_data_uri(""));
    assert!(!is_valid_data_uri("DATA:a/b;base64,x"));
    assert!(!is_valid_data_uri("data:a;b/c;base64,x"), "the media type ends at the first ;");
}
