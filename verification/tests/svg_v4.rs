use srng::svg_import::ImportOptions;
use srng::svg::import_svg;
use srng::svg_v4::import_svg_checked;

#[test]
fn promotes_core_v4_semantics() {
    let svg = r##"<svg xmlns="http://www.w3.org/2000/svg" width="200" height="100" viewBox="0 0 100 50"><defs><linearGradient id="derived" href="#base" spreadMethod="reflect"/><linearGradient id="base"><stop offset="0" stop-color="#f00"/><stop offset="100%" stop-color="#00f"/></linearGradient><path id="p" d="M0 0 L10 0 L10 10 Z" fill="#ff0000"/><use id="nested" href="#p"/><filter id="b"><feGaussianBlur stdDeviation="2"/><feOffset dx="1" dy="3"/></filter></defs><g transform="translate(2 3)" opacity="0.5"><rect width="100" height="50" fill="url(#derived)" filter="url(#b)"/><use href="#nested" x="5" y="6"/></g></svg>"##;
    let r = import_svg(svg, "v4.svg", &ImportOptions::default());
    assert!(r.source.contains("viewbox: \"0 0 100 50\";"));
    assert!(r.source.contains("gradient-spread: \"reflect\";"));
    assert!(r.source.contains("gradient-stops: 0 #ff0000ff, 1 #0000ffff;"));
    assert!(r.source.contains("filter-chain: \"blur(2 2); offset(1 3)\";"));
    assert!(r.source.contains("reference nested = \"#p\""));
}

#[test]
fn promotes_embedded_image_data() {
    let svg = r#"<svg xmlns="http://www.w3.org/2000/svg"><image x="1" y="2" width="3" height="4" href="data:image/png;base64,iVBORw0KGgo="/></svg>"#;
    let r = import_svg(svg, "image.svg", &ImportOptions::default());
    assert!(r.source.contains("image-data:"));
    assert!(r.source.contains("source-width: \"3\";"));
}

#[test]
fn resolves_forward_gradient_inheritance() {
    let svg = r##"<svg xmlns="http://www.w3.org/2000/svg"><defs><linearGradient id="child" href="#parent"/><linearGradient id="parent"><stop offset="0" stop-color="#fff"/><stop offset="1" stop-color="#000"/></linearGradient></defs><rect width="10" height="10" fill="url(#child)"/></svg>"##;
    let r = import_svg(svg, "gradient.svg", &ImportOptions::default());
    assert!(r.source.contains("gradient-stops: 0 #ffffffff, 1 #000000ff;"));
}

#[test]
fn imports_nested_use_as_reference() {
    let svg = r##"<svg xmlns="http://www.w3.org/2000/svg"><defs><rect id="base" width="3" height="4" fill="#f00"/><use id="alias" href="#base"/></defs><use id="instance" href="#alias" x="5" y="6"/></svg>"##;
    let r = import_svg(svg, "use.svg", &ImportOptions::default());
    assert!(r.source.contains("reference alias = \"#base\""));
    assert!(r.source.contains("reference instance = \"#alias\""));
    assert!(r.source.contains("position: 5px 6px;"));
}

#[test]
fn viewbox_warning_becomes_information() {
    let svg = r##"<svg xmlns="http://www.w3.org/2000/svg" width="200" height="100" viewBox="0 0 100 50"><rect width="1" height="1"/></svg>"##;
    let r = srng::svg_v4::import_svg(svg, "vb.svg", &ImportOptions::default());
    let d = r.diagnostics.iter().find(|d| d.code == "S120").unwrap();
    assert_eq!(d.severity, "info");
    assert_eq!(d.message, "viewBox is represented by native SRNG viewbox/preserve-aspect-ratio semantics");
}

#[test]
fn use_without_href_is_diagnosed() {
    let svg = r##"<svg xmlns="http://www.w3.org/2000/svg"><use id="lonely"/></svg>"##;
    let r = srng::svg_v4::import_svg(svg, "lonely.svg", &ImportOptions::default());
    assert!(r.diagnostics.iter().any(|d| d.code == "S310" && d.element.as_deref() == Some("lonely")));
}

#[test]
fn external_use_is_diagnosed() {
    let svg = r##"<svg xmlns="http://www.w3.org/2000/svg"><use id="far" href="other.svg#shape"/></svg>"##;
    let r = srng::svg_v4::import_svg(svg, "far.svg", &ImportOptions::default());
    let d = r.diagnostics.iter().find(|d| d.code == "S311").unwrap();
    assert_eq!(d.message, "external <use> target `other.svg#shape` is preserved but not resolved");
}

#[test]
fn unreadable_stop_colour_is_refused_by_the_checked_import() {
    let svg = "<svg xmlns=\"http://www.w3.org/2000/svg\"><defs><linearGradient id=\"g\"><stop offset=\"0\" stop-color=\"#\u{e9}a\"/></linearGradient></defs><rect width=\"1\" height=\"1\" fill=\"url(#g)\"/></svg>";
    assert!(import_svg_checked(svg, "bad.svg", &ImportOptions::default()).is_none());
    let ok = r##"<svg xmlns="http://www.w3.org/2000/svg"><rect width="1" height="1"/></svg>"##;
    assert!(import_svg_checked(ok, "ok.svg", &ImportOptions::default()).is_some());
}
