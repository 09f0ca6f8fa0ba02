use srng::svg::{import_svg, import_svg_checked, strip_svg_provenance, ImportOptions};

#[test]
fn inline_style_opacity_becomes_native() {
    let svg = r##"<svg xmlns="http://www.w3.org/2000/svg" width="10" height="10"><rect width="10" height="10" style="fill:#ff0000;opacity:0.5;fill-opacity:0.5"/></svg>"##;
    let result = import_svg(svg, "style.svg", &ImportOptions::default());
    assert!(result.source.contains("opacity:"));
    assert!(result.source.contains("fill-opacity:"));
}

#[test]
fn referenced_group_is_materialized_as_resource_subtree() {
    let svg = r##"<svg xmlns="http://www.w3.org/2000/svg"><defs><g id="badge"><rect id="back" width="20" height="10" fill="#f00"/><circle id="dot" cx="5" cy="5" r="2" fill="#00f"/></g></defs><use id="badge_instance" href="#badge" x="30" y="40"/></svg>"##;
    let result = import_svg(svg, "group.svg", &ImportOptions::default());
    assert!(result.source.contains("group badge {"));
    assert!(result.source.contains("rect back {"));
    assert!(result.source.contains("circle dot {"));
    assert!(result.source.contains("relation badge -> back"));
    assert!(result.source.contains("relation badge -> dot"));
    assert!(result.source.contains("reference badge_instance = \"#badge\""));
}

#[test]
fn percentage_lengths_use_svg_viewport_axes() {
    let svg = r#"<svg xmlns="http://www.w3.org/2000/svg" width="200" height="100"><rect id="half" x="10%" y="20%" width="50%" height="50%"/></svg>"#;
    let imported = import_svg(svg, "percent.svg", &ImportOptions::default());
    assert!(imported.source.contains("position: 20px 20px;"));
    assert!(imported.source.contains("size: 100px 50px;"));
}

#[test]
fn unsupported_transform_is_never_silent() {
    let svg = r#"<svg xmlns="http://www.w3.org/2000/svg"><rect id="moved" width="10" height="10" transform="translate(20 30)"/></svg>"#;
    let imported = import_svg(svg, "transform.svg", &ImportOptions::default());
    assert!(imported.diagnostics.iter().any(|d| d.code == "S130" && d.element.as_deref() == Some("moved")));
    assert!(imported.source.contains("svg-attr-transform: \"translate(20 30)\";"));
}

#[test]
fn style_opacity_line_gains_native_alias() {
    let text: Vec<char> = "rect r {\n    svg-opacity: \"0.25\";\n}\n".chars().collect();
    let out: String = srng::svg::promote_style_semantics(&text).into_iter().collect();
    assert_eq!(out, "rect r {\n    svg-opacity: \"0.25\";\n    opacity: \"0.25\";\n}\n");
}

#[test]
fn resource_declarations_follow_the_document() {
    let svg = r##"<svg xmlns="http://www.w3.org/2000/svg" width="100" height="50"><defs><rect id="tile" x="10%" width="20" height="10"/></defs><use id="copy" href="#tile"/></svg>"##;
    let result = import_svg(svg, "tile.svg", &ImportOptions::default());
    let at = result.source.find("// Native reusable resource declarations.").unwrap();
    let tail = &result.source[at..];
    assert!(tail.contains("rect tile {\n    position: 10px 0px;\n"));
    assert!(tail.contains("    position: 10px 0px;\n"));
    assert!(tail.contains("    resource-only: true;\n"));
    assert!(tail.contains("    resource-inherit-fill: true;\n"));
}

#[test]
fn already_declared_resources_are_not_repeated() {
    let svg = r##"<svg xmlns="http://www.w3.org/2000/svg"><rect id="shown" width="2" height="2"/><use id="again" href="#shown"/></svg>"##;
    let result = import_svg(svg, "shown.svg", &ImportOptions::default());
    assert!(!result.source.contains("// Native reusable resource declarations."));
}

#[test]
fn resource_use_without_target_is_diagnosed() {
    let svg = r##"<svg xmlns="http://www.w3.org/2000/svg"><defs><g id="set"><use id="inner"/></g></defs><use id="outer" href="#set"/></svg>"##;
    let result = import_svg(svg, "set.svg", &ImportOptions::default());
    assert!(result.diagnostics.iter().any(|d| d.code == "S310" && d.message == "resource <use> has no local href target"));
}

#[test]
fn checked_import_matches_the_import() {
    let svg = r##"<svg xmlns="http://www.w3.org/2000/svg" width="8" height="8"><circle cx="4" cy="4" r="2"/></svg>"##;
    let a = import_svg(svg, "c.svg", &ImportOptions::default());
    let b = import_svg_checked(svg, "c.svg", &ImportOptions::default()).unwrap();
    assert_eq!(a.source, b.source);
    assert_eq!(a.diagnostics, b.diagnostics);
    assert!(!strip_svg_provenance(&a.source).contains("svg-"));
}
