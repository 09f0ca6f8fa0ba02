use srng::font::{parse_families, parse_style, parse_weight, FontStyle};
use srng::resources::{luminance_alpha, native_shapes_xml, premultiply_rgba, quote, ref_id, unquote, xml_escape};

#[test]
fn premultiplies_external_texture_alpha() {
    let mut p = vec![200, 100, 50, 128];
    premultiply_rgba(&mut p);
    assert_eq!(p, vec![100, 50, 25, 128]);
}

#[test]
fn native_shape_records_reconstruct_resource_xml() {
    let xml = native_shapes_xml("#ff0000|M 0 0 h 2 v 4 h -2 Z\n#0000ff|M 2 0 h 2 v 4 h -2 Z").unwrap();
    assert!(xml.contains("fill=\"#ff0000\""));
    assert!(xml.contains("fill=\"#0000ff\""));
    assert!(!xml.contains("svg-"));
}

#[test]
fn geometry_luminance_mask_converts_gray_to_alpha() {
    assert_eq!(luminance_alpha("#808080"), "#ffffff80");
}

#[test]
fn semantic_v4_luminance_mask_converts_gray_to_alpha() {
    assert_eq!(luminance_alpha("#808080"), "#ffffff80");
}

#[test]
fn family_parser_preserves_fallback_order() {
    assert_eq!(parse_families(Some("Inter, 'Noto Sans', sans-serif")), vec!["Inter", "Noto Sans", "sans-serif"]);
}

#[test]
fn weight_parser_resolves_css_keywords() {
    assert_eq!(parse_weight("bold"), 700);
    assert_eq!(parse_weight("500"), 500);
}

#[test]
fn weight_parser_clamps_and_defaults() {
    assert_eq!(parse_weight(" lighter "), 300);
    assert_eq!(parse_weight("0"), 1);
    assert_eq!(parse_weight("5000"), 1000);
    assert_eq!(parse_weight("+650"), 650);
    assert_eq!(parse_weight("70000"), 400);
    assert_eq!(parse_weight("heavy"), 400);
}

#[test]
fn style_and_family_defaults() {
    assert_eq!(parse_style(" italic"), FontStyle::Italic);
    assert_eq!(parse_style("oblique"), FontStyle::Oblique);
    assert_eq!(parse_style("bold"), FontStyle::Normal);
    assert_eq!(parse_families(None), vec!["sans-serif"]);
    assert_eq!(parse_families(Some(" , \"\" ,A")), vec!["A"]);
}

#[test]
fn shape_records_need_a_separator() {
    assert_eq!(native_shapes_xml("#fff M 0 0"), None);
    assert_eq!(native_shapes_xml("  \n \n"), None);
    assert_eq!(
        native_shapes_xml("\n #a&b | M 0 0 \n").unwrap(),
        "<path d=\"M 0 0\" fill=\"#a&amp;b\"/>"
    );
}

#[test]
fn luminance_of_short_and_odd_colours() {
    assert_eq!(luminance_alpha("#fff"), "#ffffffff");
    assert_eq!(luminance_alpha("\"#000000\""), "#ffffff00");
    assert_eq!(luminance_alpha("red"), "#ffffff00");
    assert_eq!(luminance_alpha("#12"), "#ffffff00");
    assert_eq!(luminance_alpha("#ff0000"), "#ffffff36");
}

#[test]
fn literal_quoting_round_trips() {
    let text = "a \"b\" \\ c\nd\te";
    assert_eq!(unquote(&quote(text)), text);
    assert_eq!(unquote("  plain  "), "plain");
    assert_eq!(unquote("\"x\\qy\""), "x\\qy");
    assert_eq!(xml_escape("<a href='x'>&</a>"), "&lt;a href=&apos;x&apos;&gt;&amp;&lt;/a&gt;");
}

#[test]
fn reference_ids() {
    assert_eq!(ref_id("url(#mask)").as_deref(), Some("mask"));
    assert_eq!(ref_id("plain").as_deref(), Some("plain"));
    assert_eq!(ref_id("url(#open"), None);
    assert_eq!(ref_id(""), None);
}

#[test]
fn premultiply_leaves_a_partial_pixel() {
    let mut p = vec![255, 255, 255, 0, 10, 20, 30, 255, 9, 9];
    premultiply_rgba(&mut p);
    assert_eq!(p, vec![0, 0, 0, 0, 10, 20, 30, 255, 9, 9]);
}

#[test]
fn luminance_sliceability_is_checkable() {
    assert!(srng::resources::luminance_sliceable_exec("#808080"));
    assert!(srng::resources::luminance_sliceable_exec("red"));
    assert!(!srng::resources::luminance_sliceable_exec("#\u{e9}0"));
    assert!(!srng::resources::luminance_sliceable_exec("#a\u{e9}bbbb"));
}
