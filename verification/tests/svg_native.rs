use srng::svg_import::ImportOptions;
use srng::svg_native::{import_svg, strip_svg_provenance};

#[test]
fn complex_mask_becomes_native_vector_resource() {
    let svg = r##"<svg xmlns="http://www.w3.org/2000/svg" width="20" height="20"><defs><mask id="m"><rect width="10" height="20" fill="#808080"/></mask></defs><rect id="box" width="20" height="20" fill="#fff" mask="url(#m)"/></svg>"##;
    let result = import_svg(svg, "mask.svg", &ImportOptions::default());
    let stripped = strip_svg_provenance(&result.source);
    assert!(stripped.contains("mask-ref: \"url(#m)\";"));
    assert!(stripped.contains("mask-data:"));
    assert!(stripped.contains("mask-type: \"luminance\";"));
    assert!(!stripped.contains("source-data:"));
    assert!(!stripped.contains("<mask"));
    assert!(!stripped.lines().any(|line| line.trim_start().starts_with("svg-")));
}

#[test]
fn provenance_aliases_follow_their_source_lines() {
    let svg = r##"<svg xmlns="http://www.w3.org/2000/svg" width="10" height="10"><rect id="r" width="4" height="4"/></svg>"##;
    let result = import_svg(svg, "alias.svg", &ImportOptions::default());
    assert!(result.source.contains("    svg-source-tag: \"rect\";\n    source-tag: \"rect\";\n"));
}

#[test]
fn stripping_keeps_native_lines_only() {
    let text = "srng 0.1;\nrect r {\n    svg-source-tag: \"rect\";\n    fill: #ff0000;\n}\n";
    assert_eq!(strip_svg_provenance(text), "srng 0.1;\nrect r {\n    fill: #ff0000;\n}\n");
}

#[test]
fn pattern_tile_diagnostic_becomes_information() {
    let svg = r##"<svg xmlns="http://www.w3.org/2000/svg" width="20" height="20"><defs><pattern id="p" width="4" height="4"><rect width="2" height="2" fill="#000"/></pattern></defs><rect width="20" height="20" fill="url(#p)"/></svg>"##;
    let result = import_svg(svg, "pattern.svg", &ImportOptions::default());
    for d in &result.diagnostics {
        if d.code == "S232" {
            assert_eq!(d.severity, "info");
            assert!(d.message.contains("native SRNG pattern paint"));
        }
    }
}

#[test]
fn vector_pattern_becomes_native_without_embedded_xml() {
    let svg = r##"<svg xmlns="http://www.w3.org/2000/svg" width="20" height="20"><defs><pattern id="p" patternUnits="userSpaceOnUse" width="4" height="4"><rect width="2" height="4" fill="#fff"/></pattern></defs><rect id="box" width="20" height="20" fill="url(#p)"/></svg>"##;
    let result = import_svg(svg, "pattern.svg", &ImportOptions::default());
    let stripped = strip_svg_provenance(&result.source);
    assert!(stripped.contains("pattern-ref: \"p\";"));
    assert!(stripped.contains("pattern-data:"));
    assert!(stripped.contains("pattern-units: \"userSpaceOnUse\";"));
    assert!(!stripped.contains("pattern-source:"));
    assert!(!stripped.contains("source-data:"));
    assert!(!stripped.contains("<pattern"));
    assert!(!stripped.lines().any(|line| line.trim_start().starts_with("svg-")));
}

#[test]
fn binary_mask_keeps_native_clip_semantics() {
    let svg = r##"<svg xmlns="http://www.w3.org/2000/svg" width="20" height="20"><defs><mask id="m"><circle cx="10" cy="10" r="5" fill="white"/></mask></defs><rect id="box" width="20" height="20" fill="#fff" mask="url(#m)"/></svg>"##;
    let result = import_svg(svg, "mask.svg", &ImportOptions::default());
    let stripped = strip_svg_provenance(&result.source);
    assert!(stripped.contains("mask-mode: \"binary-opaque-clip\";"));
    assert!(stripped.contains("mask-data:"));
    assert!(stripped.contains("clip:"));
}

#[test]
fn pattern_reference_carries_tile_size_and_source() {
    let svg = r##"<svg xmlns="http://www.w3.org/2000/svg"><defs><pattern id="p" width="4" height="5"><rect width="4" height="5" fill="red"/></pattern></defs><rect width="8" height="8" fill="url(#p)"/><rect width="8" height="8" fill="url(#q)"/></svg>"##;
    let result = import_svg(svg, "p.svg", &ImportOptions::default());
    assert!(result.source.contains("svg-pattern-ref: \"p\";"));
    assert!(result.source.contains("pattern-width: \"4\";"));
    assert!(result.source.contains("pattern-height: \"5\";"));
    assert!(result.source.contains("svg-pattern-source-xml: \"<pattern"));
    assert!(!result.source.contains("pattern-ref: \"q\";"));
}

#[test]
fn grey_mask_is_not_marked_binary() {
    let svg = r##"<svg xmlns="http://www.w3.org/2000/svg"><defs><mask id="m"><circle r="5" fill="#808080"/></mask></defs><rect width="20" height="20" mask="url(#m)"/></svg>"##;
    let result = import_svg(svg, "m.svg", &ImportOptions::default());
    assert!(!result.source.contains("binary-opaque-clip"));
    assert!(!result.source.contains("clip: \"m\";"));
}

#[test]
fn promotion_keeps_lines_with_alias_after_each() {
    let source: Vec<char> = "group g {\n    svg-mask-mode: \"binary-opaque-clip\";\n    fill: none;\n}\n".chars().collect();
    let out: String = srng::svg_native::promote_native_semantics(&source).into_iter().collect();
    assert_eq!(out, "group g {\n    svg-mask-mode: \"binary-opaque-clip\";\n    mask-mode: \"binary-opaque-clip\";\n    fill: none;\n}\n");
}
