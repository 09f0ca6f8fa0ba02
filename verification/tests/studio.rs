use srng::studio::{convert_svg_finish, convert_svg_start, unpremultiply_rgba, RgbaImage, StudioDiagnostic};

fn image() -> RgbaImage {
    RgbaImage { width: 1, height: 1, pixels: vec![1, 2, 3, 255] }
}

#[test]
fn unpremultiply_divides_by_alpha() {
    assert_eq!(unpremultiply_rgba(&[64, 32, 0, 128, 9, 9, 9, 0, 7, 8, 9, 255, 5]), vec![128, 64, 0, 128, 9, 9, 9, 0, 7, 8, 9, 255, 5]);
    assert_eq!(unpremultiply_rgba(&[200, 0, 0, 100]), vec![255, 0, 0, 100]);
}

#[test]
fn oversized_source_gives_ui300() {
    let svg = "x".repeat(32 * 1024 * 1024 + 1);
    let (o, go) = convert_svg_start(&svg, "big.svg", None);
    assert!(!go);
    assert!(o.srng.is_empty());
    assert_eq!(o.diagnostics.len(), 1);
    assert_eq!(o.diagnostics[0].code, "UI300");
    assert_eq!(o.diagnostics[0].message, "source is 33554433 bytes; Studio limit is 33554432 bytes");
    assert!(o.original.is_none() && o.rendered.is_none());
}

#[test]
fn conversion_keeps_reference_and_import() {
    let svg = r##"<svg xmlns="http://www.w3.org/2000/svg" width="4" height="4"><rect width="4" height="4" fill="#fff"/></svg>"##;
    let (o, go) = convert_svg_start(svg, "a.svg", Some(Ok(image())));
    assert!(go);
    assert!(o.srng.contains("rect"));
    assert_eq!(o.original.as_ref().unwrap().pixels, vec![1, 2, 3, 255]);
    assert!(o.diagnostics.iter().all(|d| d.severity != "error"));
    let extra = StudioDiagnostic { severity: "warning".into(), code: "R1".into(), message: "m".into() };
    let n = o.diagnostics.len();
    let done = convert_svg_finish(o, (Some(image()), vec![extra]));
    assert_eq!(done.diagnostics.len(), n + 1);
    assert_eq!(done.diagnostics[n].code, "R1");
    assert!(done.rendered.is_some());
}

#[test]
fn failed_reference_raster_is_ui100_and_blocks_rendering() {
    let svg = r#"<svg xmlns="http://www.w3.org/2000/svg" width="4" height="4"/>"#;
    let (o, go) = convert_svg_start(svg, "a.svg", Some(Err("SVG has an empty viewport".to_string())));
    assert!(!go);
    assert_eq!(o.diagnostics[0].code, "UI100");
    assert_eq!(o.diagnostics[0].message, "SVG has an empty viewport");
    assert!(o.original.is_none());
}
