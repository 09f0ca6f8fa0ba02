use srng::image::{decode_data_uri, sniff_codec, validate_dimensions, ImageCodec};

#[test]
fn sniff_gif() {
    assert_eq!(sniff_codec(b"GIF89a123"), Some(ImageCodec::Gif));
}

#[test]
fn mime_mismatch_is_rejected() {
    assert!(decode_data_uri("data:image/png;base64,R0lGODlh").unwrap_err().contains("does not match"));
}

#[test]
fn malformed_percent_escape_is_rejected() {
    assert!(decode_data_uri("data:image/svg+xml,%GG").is_err());
}

#[test]
fn sniffing_recognises_each_format() {
    assert_eq!(sniff_codec(b"\x89PNG\r\n\x1a\nrest"), Some(ImageCodec::Png));
    assert_eq!(sniff_codec(&[0xff, 0xd8, 0xff, 0xe0]), Some(ImageCodec::Jpeg));
    assert_eq!(sniff_codec(b"RIFF\0\0\0\0WEBPVP8 "), Some(ImageCodec::WebP));
    assert_eq!(sniff_codec(b"GIF87a"), Some(ImageCodec::Gif));
    assert_eq!(sniff_codec(b"  \n<svg xmlns='x'/>"), Some(ImageCodec::Svg));
    assert_eq!(sniff_codec(b"<?xml version='1.0'?><svg/>"), Some(ImageCodec::Svg));
    assert_eq!(sniff_codec(b"<!-- x --><svg/>"), Some(ImageCodec::Svg));
    assert_eq!(sniff_codec(b"hello"), None);
    assert_eq!(sniff_codec(b""), None);
}

#[test]
fn dimension_limits_give_exact_messages() {
    assert_eq!(validate_dimensions(0, 5).unwrap_err(), "embedded image has empty dimensions");
    assert_eq!(
        validate_dimensions(16385, 2).unwrap_err(),
        "embedded image dimensions 16385x2 exceed 16384px per-axis limit"
    );
    assert_eq!(
        validate_dimensions(16384, 16384).unwrap_err(),
        "embedded image has 268435456 pixels; limit is 16777216"
    );
    assert!(validate_dimensions(4096, 4096).is_ok());
}

#[test]
fn data_uri_errors_are_reported_in_order() {
    assert_eq!(decode_data_uri("data:image/png").unwrap_err(), "invalid data image URI: missing comma");
    assert_eq!(decode_data_uri("image/png,abc").unwrap_err(), "invalid data image URI scheme");
    assert_eq!(decode_data_uri("data:image/png;base64,!!!!").unwrap_err(), "invalid base64 in image URI");
    assert_eq!(decode_data_uri("data:,%4").unwrap_err(), "truncated percent escape in data URI");
    assert_eq!(
        decode_data_uri("data:,hello").unwrap_err(),
        "embedded image payload is not a supported raster/SVG format"
    );
    assert_eq!(
        decode_data_uri("data:image/png;base64,R0lGODlh").unwrap_err(),
        "embedded image MIME `image/png` does not match detected `image/gif` payload"
    );
}

#[test]
fn percent_encoded_svg_decodes() {
    let uri = "data:image/svg+xml,%3Csvg xmlns='http://www.w3.org/2000/svg' width='3' height='2'%3E%3Crect width='3' height='2'/%3E%3C/svg%3E";
    let image = decode_data_uri(uri).expect("svg decodes");
    assert_eq!(image.codec, ImageCodec::Svg);
    assert_eq!((image.width, image.height), (3, 2));
    assert_eq!(image.pixels.len(), 3 * 2 * 4);
}

#[test]
fn jpg_alias_is_accepted_for_jpeg_payloads() {
    let err = decode_data_uri("data:image/jpg;base64,/9j/AAAA").unwrap_err();
    assert!(!err.contains("does not match"), "{err}");
}

#[test]
fn svg_payload_decodes_to_its_size() {
    let d = srng::image::decode_bytes(ImageCodec::Svg, br#"<svg xmlns="http://www.w3.org/2000/svg" width="3.5" height="2"/>"#).unwrap();
    assert_eq!((d.width, d.height), (4, 2));
    assert_eq!(d.pixels.len(), 4 * 4 * 2);
    let e = srng::image::decode_bytes(ImageCodec::Svg, br#"<svg xmlns="http://www.w3.org/2000/svg" width="20000" height="2"/>"#).unwrap_err();
    assert_eq!(e, "embedded image dimensions 20000x2 exceed 16384px per-axis limit");
}

#[test]
fn decoded_image_becomes_png_data_uri() {
    let d = srng::image::DecodedImage { codec: ImageCodec::Gif, width: 1, height: 1, pixels: vec![255, 0, 0, 255] };
    let uri = srng::image::png_data_uri(&d).unwrap();
    assert!(uri.starts_with("data:image/png;base64,iVBORw0KGgo"));
    let back = decode_data_uri(&uri).unwrap();
    assert_eq!((back.width, back.height), (1, 1));
    assert_eq!(back.pixels, vec![255, 0, 0, 255]);
    let short = srng::image::DecodedImage { codec: ImageCodec::Png, width: 2, height: 1, pixels: vec![0; 4] };
    assert_eq!(srng::image::png_data_uri(&short).unwrap_err(), "decoded RGBA buffer length does not match dimensions");
    let long = srng::image::DecodedImage { codec: ImageCodec::Png, width: 1, height: 1, pixels: vec![0; 5] };
    assert_eq!(srng::image::png_data_uri(&long).unwrap_err(), "decoded RGBA buffer length does not match dimensions");
}
