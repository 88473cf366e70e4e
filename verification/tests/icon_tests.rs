use apphub::icon::{
    browser_candidates, custom_icon_file_name, custom_icon_temp_name, decode_custom_icon,
    icon_bitmap_to_data_uri, icon_fallback_for, postprocess_pixels, retry_allowed, to_hex,
    web_icon_applicable, wrap_data_uri, IconFallback, ICON_SIZE,
};

#[test]
fn postprocess_swaps_red_and_blue_and_sets_opaque() {
    // one BGRA pixel: blue 1, green 2, red 3
    let mut bits = vec![1u8, 2, 3, 9];
    postprocess_pixels(&mut bits);
    assert_eq!(bits, vec![3, 2, 1, 255]);
}

#[test]
fn postprocess_punches_pure_black_transparent() {
    let mut bits = vec![0u8, 0, 0, 7, 0, 0, 1, 7];
    postprocess_pixels(&mut bits);
    // first pixel is pure black: alpha 0; second is not: alpha 255
    assert_eq!(bits, vec![0, 0, 0, 0, 1, 0, 0, 255]);
}

#[test]
fn bitmap_becomes_png_data_uri() {
    let n = (ICON_SIZE as usize) * (ICON_SIZE as usize) * 4;
    let mut bits = vec![0u8; n];
    // paint one red-ish pixel so the image is not fully transparent
    bits[0] = 10;
    bits[1] = 20;
    bits[2] = 30;
    let uri = icon_bitmap_to_data_uri(&mut bits).expect("encoding a valid bitmap succeeds");
    assert!(uri.starts_with("data:image/png;base64,"));
    // the payload decodes to a PNG stream
    let payload = &uri["data:image/png;base64,".len()..];
    let png = base64::Engine::decode(&base64::engine::general_purpose::STANDARD, payload)
        .expect("payload is base64");
    assert_eq!(&png[..4], &[0x89u8, b'P', b'N', b'G']);
}

#[test]
fn override_name_is_hex_md5_of_the_path_string() {
    // the well-known digest of "abc"
    assert_eq!(custom_icon_file_name("abc"), "900150983cd24fb0d6963f7d28e17f72.png");
}

#[test]
fn temp_name_differs_from_final_name() {
    let p = "C:\\Steam\\cs.exe";
    assert_eq!(custom_icon_temp_name(p), custom_icon_file_name(p).replace(".png", ".tmp"));
    assert_ne!(custom_icon_temp_name(p), custom_icon_file_name(p));
}

#[test]
fn hex_is_lowercase_two_digits_per_byte() {
    let h: String = to_hex(&vec![0u8, 15, 16, 255]).into_iter().collect();
    assert_eq!(h, "000f10ff");
}

#[test]
fn decode_strips_data_uri_header() {
    let bytes = decode_custom_icon("data:image/png;base64,aGVsbG8=").expect("valid payload");
    assert_eq!(bytes, b"hello");
}

#[test]
fn decode_accepts_bare_payload() {
    let bytes = decode_custom_icon("aGVsbG8=").expect("valid payload");
    assert_eq!(bytes, b"hello");
}

#[test]
fn malformed_payload_is_an_error() {
    assert!(decode_custom_icon("data:image/png;base64,!!!").is_err());
}

#[test]
fn fallback_follows_the_extension() {
    assert_eq!(icon_fallback_for("C:\\a\\b.lnk"), IconFallback::ResolveLink);
    assert_eq!(icon_fallback_for("C:\\a\\B.LNK"), IconFallback::ResolveLink);
    assert_eq!(icon_fallback_for("C:\\a\\b.url"), IconFallback::WebFallback);
    assert_eq!(icon_fallback_for("C:\\a\\b.exe"), IconFallback::NoFallback);
}

#[test]
fn browser_probe_list_is_fixed_and_ordered() {
    let v = browser_candidates();
    assert_eq!(v.len(), 3);
    assert!(v[0].contains("chrome.exe"));
    assert!(v[1].contains("msedge.exe"));
    assert!(v[2].contains("firefox.exe"));
}

#[test]
fn well_formed_web_address_is_recognized() {
    assert!(web_icon_applicable("[InternetShortcut]\r\nURL=https://example.com/\r\n"));
    assert!(!web_icon_applicable("[InternetShortcut]\r\nIconIndex=0\r\n"));
    assert!(!web_icon_applicable("URL=ftp://example.com/\n"));
    assert!(!web_icon_applicable("URL=not a url\n"));
}

#[test]
fn fallback_retries_only_from_the_original_request() {
    assert!(retry_allowed(0));
    assert!(!retry_allowed(1));
    assert!(!retry_allowed(2));
}

#[test]
fn data_uri_wrapping() {
    assert_eq!(wrap_data_uri("QUJD"), "data:image/png;base64,QUJD");
}
