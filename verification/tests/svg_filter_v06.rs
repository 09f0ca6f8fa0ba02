use srng::svg_filter_v06::{colour_matrix_requests, import_svg, import_svg_checked};
use srng::svg_import::ImportOptions;

#[test]
fn imports_named_results_and_regions() {
    let svg = r#"<svg xmlns="http://www.w3.org/2000/svg" width="20" height="20"><defs><filter id="f" x="0" y="0" width="20" height="20" filterUnits="userSpaceOnUse"><feGaussianBlur in="SourceAlpha" stdDeviation="2" result="b"/><feOffset in="b" dx="2" result="o"/><feMerge result="m"><feMergeNode in="o"/><feMergeNode in="SourceGraphic"/></feMerge></filter></defs><rect width="10" height="10" filter="url(#f)"/></svg>"#;
    let result = import_svg(svg, "f.svg", &ImportOptions::default(), &Vec::new());
    assert!(result.source.contains("filter-graph:"));
    assert!(result.source.contains("SourceAlpha"));
    assert!(result.source.contains("->b"));
    assert!(result.source.contains("filter-units: \"userSpaceOnUse\""));
}

#[test]
fn unsupported_filter_is_retained_and_diagnosed() {
    let svg = r#"<svg xmlns="http://www.w3.org/2000/svg"><defs><filter id="f"><feTurbulence result="n"/></filter></defs><rect width="1" height="1" filter="url(#f)"/></svg>"#;
    let result = import_svg(svg, "u.svg", &ImportOptions::default(), &Vec::new());
    assert!(result.source.contains("feTurbulence"));
    assert!(result.diagnostics.iter().any(|d| d.code == "S360"));
}

#[test]
fn graph_statements_are_exact() {
    let svg = r#"<svg xmlns="http://www.w3.org/2000/svg"><defs><filter id="f"><feGaussianBlur stdDeviation="2 3"/><feFlood flood-color="red" flood-opacity="0.5" result="fl"/><feComposite in2="fl" operator="arithmetic" k2="1"/><feComponentTransfer><feFuncR type="table" tableValues="0 1"/><feFuncA type="linear" slope="2"/></feComponentTransfer><feMerge/></filter></defs><rect width="1" height="1" filter="url(#f)"/></svg>"#;
    let result = import_svg(svg, "g.svg", &ImportOptions::default(), &Vec::new());
    let expected = "filter-graph: \"feGaussianBlur( sigma_x=2 sigma_y=3)->_filter_1; feFlood(color=#ff000080)->fl; feComposite( in2=fl operator=arithmetic k1=0 k2=1 k3=0 k4=0)->_filter_3; feComponentTransfer( r=table:0|1 a=linear:2|0)->_filter_4; feMerge(SourceGraphic)->_filter_5\";";
    assert!(result.source.contains(expected), "{}", result.source);
    assert!(result.source.contains("filter-x: \"-10%\";"));
    assert!(result.source.contains("filter-width: \"120%\";"));
    assert!(result.source.contains("filter-primitive-units: \"userSpaceOnUse\";"));
}

#[test]
fn colour_matrices_come_from_the_caller() {
    let svg = r#"<svg xmlns="http://www.w3.org/2000/svg"><defs><filter id="c"><feColorMatrix type="saturate" values="0.5"/><feColorMatrix/></filter></defs><rect width="1" height="1" filter="url(#c)"/></svg>"#;
    let requests = colour_matrix_requests(svg);
    assert_eq!(requests, vec![("saturate".to_string(), Some("0.5".to_string())), ("matrix".to_string(), None)]);
    let matrices = vec!["a|b".to_string(), "c|d".to_string()];
    let result = import_svg(svg, "c.svg", &ImportOptions::default(), &matrices);
    assert!(result.source.contains("feColorMatrix( values=a|b)->_filter_1; feColorMatrix( values=c|d)->_filter_2"), "{}", result.source);
}

#[test]
fn unsupported_primitives_of_a_replaced_filter_are_not_reported() {
    let svg = r#"<svg xmlns="http://www.w3.org/2000/svg"><defs><filter id="f"><feTile/></filter><filter id="f"><feOffset/></filter></defs></svg>"#;
    let result = import_svg(svg, "r.svg", &ImportOptions::default(), &Vec::new());
    assert!(!result.diagnostics.iter().any(|d| d.code == "S360"));
}

#[test]
fn s360_message_names_the_primitive() {
    let svg = r#"<svg xmlns="http://www.w3.org/2000/svg"><defs><filter id="f"><feTile/></filter></defs></svg>"#;
    let result = import_svg(svg, "t.svg", &ImportOptions::default(), &Vec::new());
    let d = result.diagnostics.iter().find(|d| d.code == "S360").unwrap();
    assert_eq!(d.severity, "warning");
    assert_eq!(d.message, "unsupported filter primitive <feTile> is retained as an explicit native filter-graph node and will be diagnosed and bypassed by the CPU renderer");
    assert_eq!(d.element, None);
}

#[test]
fn checked_import_refuses_split_flood_colour() {
    let svg = "<svg xmlns=\"http://www.w3.org/2000/svg\"><defs><filter id=\"f\"><feFlood flood-color=\"#a\u{e9}\"/></filter></defs></svg>";
    assert!(import_svg_checked(svg, "s.svg", &ImportOptions::default(), &Vec::new()).is_none());
}
