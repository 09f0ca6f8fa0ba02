use srng::svg_complete::{import_svg, import_svg_checked};
use srng::svg_import::ImportOptions;

#[test]
fn promotes_viewbox_transform_opacity_and_linear_gradient() {
    let svg = r##"<svg xmlns="http://www.w3.org/2000/svg" width="200" height="100" viewBox="0 0 100 50"><defs><linearGradient id="g"><stop offset="0" stop-color="#ff0000"/><stop offset="100%" stop-color="#0000ff"/></linearGradient></defs><rect id="r" transform="translate(2 3)" opacity="0.5" width="100" height="50" fill="url(#g)"/></svg>"##;
    let result = import_svg(svg, "a.svg", &ImportOptions::default());
    assert!(result.source.contains("viewbox: \"0 0 100 50\";"));
    assert!(result.source.contains("transform: \"translate(2 3)\";"));
    assert!(result.source.contains("opacity: \"0.5\";"));
    assert!(result.source.contains("fill: linear-gradient;"));
    assert!(result.source.contains("gradient-stops: 0 #ff0000ff, 1 #0000ffff;"));
}

#[test]
fn promotes_simple_use_target() {
    let svg = r##"<svg xmlns="http://www.w3.org/2000/svg" width="20" height="20"><defs><path id="p" d="M0 0 L10 0 L10 10 Z" fill="#ff0000"/></defs><use href="#p" x="5" y="6"/></svg>"##;
    let result = import_svg(svg, "a.svg", &ImportOptions::default());
    assert!(result.source.contains("use-data: \"M0 0 L10 0 L10 10 Z\";"));
    assert!(result.source.contains("use-fill: #ff0000;"));
}

#[test]
fn shape_targets_become_path_data_and_paint() {
    let svg = r##"<svg xmlns="http://www.w3.org/2000/svg"><defs><rect id="r" x="1" y="2" width="3" height="4" fill="blue" stroke="#abc"/><circle id="c" cx="5" cy="5" r="2"/><polygon id="t" points="0,0 4,0 4,3"/><line id="l" x1="1" y1="1" x2="3.5" y2="1"/></defs><use href="#r"/><use href="#c"/><use href="#t"/><use href="#l"/></svg>"##;
    let result = import_svg(svg, "b.svg", &ImportOptions::default());
    assert!(result.source.contains("use-data: \"M 1 2 H 4 V 6 H 1 Z\";"));
    assert!(result.source.contains("use-fill: #0000ff;"));
    assert!(result.source.contains("use-stroke: #aabbcc;"));
    assert!(result.source.contains("use-data: \"M 3 5 A 2 2 0 1 0 7 5 A 2 2 0 1 0 3 5 Z\";"));
    assert!(result.source.contains("use-fill: #000000;"));
    assert!(result.source.contains("use-stroke: none;"));
    assert!(result.source.contains("use-data: \"M 0 0 L 4 0 L 4 3 Z\";"));
    assert!(result.source.contains("use-data: \"M 1 1 L 3.5 1\";"));
}

#[test]
fn translucent_target_fill_keeps_alpha() {
    let svg = r##"<svg xmlns="http://www.w3.org/2000/svg"><defs><path id="p" d="M0 0 L1 1" fill="#ff000080"/></defs><use href="#p"/></svg>"##;
    let result = import_svg(svg, "c.svg", &ImportOptions::default());
    assert!(result.source.contains("use-fill: #ff000080;"));
}

#[test]
fn use_diagnostic_becomes_information() {
    let svg = r##"<svg xmlns="http://www.w3.org/2000/svg"><defs><path id="p" d="M0 0 L1 1"/></defs><use href="#p"/></svg>"##;
    let result = import_svg(svg, "d.svg", &ImportOptions::default());
    let d = result.diagnostics.iter().find(|d| d.code == "S302").unwrap();
    assert_eq!(d.severity, "info");
    assert_eq!(d.message, "simple <use> references are resolved to native SRNG path semantics");
}

#[test]
fn radial_gradient_gets_centre_and_focus() {
    let svg = r##"<svg xmlns="http://www.w3.org/2000/svg"><defs><radialGradient id="g" cx="30%"><stop offset="0" stop-color="red"/></radialGradient></defs><rect width="10" height="10" fill="url(#g)"/></svg>"##;
    let result = import_svg(svg, "e.svg", &ImportOptions::default());
    assert!(result.source.contains("fill: radial-gradient;"));
    assert!(result.source.contains("gradient-cx: \"30%\";"));
    assert!(result.source.contains("gradient-fx: \"30%\";"));
    assert!(result.source.contains("gradient-r: \"50%\";"));
    assert!(result.source.contains("gradient-stops: 0 #ff0000ff;"));
}

#[test]
fn checked_import_agrees_on_readable_documents() {
    let svg = r##"<svg xmlns="http://www.w3.org/2000/svg"><rect width="1" height="1"/></svg>"##;
    let a = import_svg(svg, "a.svg", &ImportOptions::default());
    let b = import_svg_checked(svg, "a.svg", &ImportOptions::default()).unwrap();
    assert_eq!(a.source, b.source);
}

#[test]
fn checked_import_refuses_colour_split_inside_a_character() {
    let svg = "<svg xmlns=\"http://www.w3.org/2000/svg\"><defs><linearGradient id=\"g\"><stop stop-color=\"#a\u{e9}\"/></linearGradient></defs></svg>";
    assert!(import_svg_checked(svg, "a.svg", &ImportOptions::default()).is_none());
}
