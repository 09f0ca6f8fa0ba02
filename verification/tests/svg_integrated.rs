use srng::svg_import::ImportOptions;
use srng::svg_integrated::{import_svg, normalize_integrated_resources};

#[test]
fn use_without_fill_gets_svg_default_black() {
    let svg = "<svg xmlns='http://www.w3.org/2000/svg'><defs><g id='item'><rect width='3' height='4'/></g></defs><use id='plain' href='#item'/></svg>";
    let result = import_svg(svg, "test.svg", &ImportOptions::default(), &Vec::new());
    let block = result.source.split("reference plain").nth(1).unwrap_or("");
    assert!(block.split('}').next().unwrap_or("").contains("fill: #000000;"), "{}", result.source);
}

#[test]
fn explicit_none_is_not_replaced() {
    let svg = "<svg xmlns='http://www.w3.org/2000/svg'><defs><rect id='item' width='1' height='1'/></defs><use id='plain' href='#item' fill='none'/></svg>";
    let result = import_svg(svg, "test.svg", &ImportOptions::default(), &Vec::new());
    let block = result.source.split("reference plain").nth(1).unwrap_or("");
    assert!(block.split('}').next().unwrap_or("").contains("fill: none;"), "{}", result.source);
}

#[test]
fn use_inherits_fill_from_its_group() {
    let svg = "<svg xmlns='http://www.w3.org/2000/svg'><defs><rect id='item' width='1' height='1'/></defs><g style='stroke: red; fill: BLUE'><use id='inner' href='#item'/></g></svg>";
    let result = import_svg(svg, "test.svg", &ImportOptions::default(), &Vec::new());
    let block = result.source.split("reference inner").nth(1).unwrap_or("");
    assert!(block.split('}').next().unwrap_or("").contains("fill: #0000ff;"), "{}", result.source);
}

#[test]
fn pattern_references_get_their_pattern_size() {
    let svg = "<svg xmlns='http://www.w3.org/2000/svg'><defs><pattern id='p' width='50%' height='0'/><pattern id='q' width='25%' height='2px'/></defs></svg>";
    let mut source = "srng 0.1;\nrect a {\n    pattern-ref: \"url(#q)\";\n    pattern-width: 9px;\n}\nrect b {\n    svg-pattern-ref: \"url(#p)\";\n}\n".to_string();
    normalize_integrated_resources(svg, &mut source);
    assert_eq!(source, "srng 0.1;\nrect a {\n    pattern-ref: \"url(#q)\";\n    pattern-width: 0.25px;\n    pattern-height: 2px;\n}\nrect b {\n    svg-pattern-ref: \"url(#p)\";\n}\n");
}

#[test]
fn binary_mask_drops_vector_payload() {
    let svg = "<svg xmlns='http://www.w3.org/2000/svg'/>";
    let mut source = "group g {\n    mask-mode: \"binary-opaque-clip\";\n    mask-data: \"x\";\n  mask-type: \"alpha\";\n    clip: \"y\";\n}\nrelation a -> g {\n    mask-data: \"kept\";\n}\n".to_string();
    normalize_integrated_resources(svg, &mut source);
    assert_eq!(source, "group g {\n    mask-mode: \"binary-opaque-clip\";\n    clip: \"y\";\n}\nrelation a -> g {\n    mask-data: \"kept\";\n}\n");
}

#[test]
fn unparsable_svg_leaves_source_alone() {
    let mut source = "rect a {\n    mask-mode: \"binary-opaque-clip\";\n    mask-data: \"x\";\n}\n".to_string();
    let before = source.clone();
    normalize_integrated_resources("<svg", &mut source);
    assert_eq!(source, before);
}

#[test]
fn integrated_pattern_keeps_positive_dimensions() {
    let svg = "<svg xmlns='http://www.w3.org/2000/svg'><defs><pattern id='p' width='4' height='5'><rect width='4' height='5' fill='red'/></pattern></defs><rect width='8' height='8' fill='url(#p)'/></svg>";
    let result = import_svg(svg, "test.svg", &ImportOptions::default(), &Vec::new());
    assert!(result.source.contains("pattern-width: 4px;"));
    assert!(result.source.contains("pattern-height: 5px;"));
}
