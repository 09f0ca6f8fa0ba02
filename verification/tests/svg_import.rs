use srng::svg_import::{import_svg, ImportOptions};

#[test]
fn imports_basic_geometry_and_compiles() {
    let svg = r##"<svg xmlns="http://www.w3.org/2000/svg" width="100" height="80"><rect id="card" x="10" y="20" width="30" height="40" fill="#ff0000"/></svg>"##;
    let imported = import_svg(svg, "basic.svg", &ImportOptions::default());
    assert!(!imported.has_errors());
    assert!(imported.source.contains("rect card"));
    assert!(imported.source.contains("position: 10px 20px;"));
    let document = srng::compile(&imported.source);
    assert!(!document.diagnostics.iter().any(|d| matches!(d.severity, srng::diagnostic::Severity::Error)));
}

#[test]
fn inherits_fill_and_converts_named_color() {
    let svg = r#"<svg xmlns="http://www.w3.org/2000/svg"><g fill="red"><circle id="dot" cx="10" cy="10" r="5"/></g></svg>"#;
    let imported = import_svg(svg, "style.svg", &ImportOptions::default());
    assert!(imported.source.contains("fill: #ff0000;"));
}

#[test]
fn converts_polyline_to_path() {
    let svg = r##"<svg xmlns="http://www.w3.org/2000/svg"><polyline id="p" points="0,0 10,5 20,0" stroke="#000" fill="none"/></svg>"##;
    let imported = import_svg(svg, "poly.svg", &ImportOptions::default());
    assert!(imported.source.contains("data: \"M 0 0 L 10 5 L 20 0\";"));
}

#[test]
fn preserves_unsupported_content_as_metadata() {
    let svg = r#"<svg xmlns="http://www.w3.org/2000/svg"><foreignObject id="x"><div xmlns="http://www.w3.org/1999/xhtml">Hi</div></foreignObject></svg>"#;
    let imported = import_svg(svg, "unsupported.svg", &ImportOptions::default());
    assert!(imported.source.contains("svg-source-xml"));
    assert!(imported.diagnostics.iter().any(|d| d.code == "S399"));
}

#[test]
fn invalid_xml_and_wrong_root_are_errors() {
    let bad = import_svg("<svg", "bad.svg", &ImportOptions::default());
    assert_eq!(bad.source, "srng 0.1;\n");
    assert_eq!(bad.diagnostics[0].code, "S001");
    assert!(bad.has_errors());
    let wrong = import_svg("<html/>", "wrong.svg", &ImportOptions::default());
    assert_eq!(wrong.diagnostics[0].message, "expected <svg> root, found <html>");
}

#[test]
fn whole_document_text_is_exact() {
    let svg = r##"<svg xmlns="http://www.w3.org/2000/svg" width="10mm" height="50%"><circle cx="1.5" cy="2" r="-3" stroke-width="2pt"/></svg>"##;
    let options = ImportOptions { file_id: Some("doc".to_string()), preserve_source_attributes: false };
    let imported = import_svg(svg, "c.svg", &options);
    let expected = "srng 0.1;\nfile \"doc\";\n\n\
canvas svg_root {\n    fill: none;\n    position: 0px 0px;\n    size: 37.795276px 75px;\n    svg-source: \"c.svg\";\n    svg-source-tag: \"svg\";\n}\n\n\
circle circle_1 {\n    fill: #000000;\n    position: 1.5px 2px;\n    size: 0px 0px;\n    stroke: none;\n    stroke-width: 2.666667px;\n    svg-source-tag: \"circle\";\n}\n\n\
relation svg_root -> circle_1 {\n    kind: contains;\n}\n\n";
    assert_eq!(imported.source, expected);
    assert!(imported.diagnostics.is_empty());
}

#[test]
fn repeated_ids_are_numbered_and_lengths_diagnosed() {
    let svg = r#"<svg xmlns="http://www.w3.org/2000/svg"><rect id="a b" width="1em"/><rect id="a b"/><desc>x</desc></svg>"#;
    let imported = import_svg(svg, "ids.svg", &ImportOptions::default());
    assert!(imported.source.contains("rect a_b {"));
    assert!(imported.source.contains("rect a_b_2 {"));
    assert!(imported.source.contains("group desc_1 {"));
    assert!(imported.diagnostics.iter().any(|d| d.code == "S201" && d.message == "unsupported length `1em` for `width`; using 0px"));
    assert!(imported.diagnostics.iter().any(|d| d.code == "S140" && d.severity == "info"));
}
