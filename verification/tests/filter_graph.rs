use srng::filter_graph::{parse_filter_graph, CompositeOperator, FilterPrimitive, FilterRegion, TransferFunction};
use srng::length::Px;
use srng::model::{FilterInput, Rgba};

fn px(n: u128) -> Px {
    Px::Fin { neg: false, mag: n * 1_000_000_000 }
}

#[test]
fn named_results_chain() {
    let (g, d) = parse_filter_graph("blur(2)->a; offset(in=a dx=3 dy=4)->b", FilterRegion::full(20, 20)).unwrap();
    assert!(d.is_empty());
    assert_eq!(g.output, FilterInput::Named("b".into()));
    assert_eq!(g.nodes.len(), 2);
}

#[test]
fn unsupported_is_diagnostic_and_preserves_input() {
    let (g, d) = parse_filter_graph("blur(1)->a; feTurbulence(in=a)->noise", FilterRegion::full(20, 20)).unwrap();
    assert_eq!(d.len(), 1);
    assert!(matches!(&g.nodes[1].op, FilterPrimitive::Unsupported { input: FilterInput::Named(name), .. } if name == "a"));
}

#[test]
fn arithmetic_composite_parses() {
    let (g, _) = parse_filter_graph(
        "feComposite(in=SourceGraphic in2=SourceAlpha operator=arithmetic k1=1 k2=2 k3=3 k4=4)->c",
        FilterRegion::full(2, 2),
    )
    .unwrap();
    assert!(matches!(g.nodes[0].op, FilterPrimitive::Composite { operator: CompositeOperator::Arithmetic { k1, k2, k3, k4 }, .. } if k1 == px(1) && k2 == px(2) && k3 == px(3) && k4 == px(4)));
}

#[test]
fn unnamed_statements_get_serial_names_and_chain() {
    let (g, d) = parse_filter_graph(" blur(2); ; offset(1 2) ", FilterRegion::full(4, 4)).unwrap();
    assert!(d.is_empty());
    assert_eq!(g.nodes[0].result, "_filter_1");
    assert_eq!(g.nodes[1].result, "_filter_2");
    assert_eq!(g.output, FilterInput::Named("_filter_2".into()));
    assert_eq!(g.nodes[1].op, FilterPrimitive::Offset { input: FilterInput::Named("_filter_1".into()), dx: px(1), dy: px(2) });
    assert_eq!(g.region, FilterRegion::full(4, 4));
}

#[test]
fn blur_second_sigma_defaults_to_first() {
    let (g, _) = parse_filter_graph("blur(sigma=3)->a", FilterRegion::full(1, 1)).unwrap();
    assert_eq!(g.nodes[0].op, FilterPrimitive::GaussianBlur { input: FilterInput::SourceGraphic, sigma_x: px(3), sigma_y: px(3) });
}

#[test]
fn flood_and_transfer_parse() {
    let (g, _) = parse_filter_graph("flood(color=#f008)->f; componentTransfer(in=f r=linear:2|1 a=table:0|1)->t", FilterRegion::full(1, 1)).unwrap();
    assert_eq!(g.nodes[0].op, FilterPrimitive::Flood { color: Rgba { r: 255, g: 0, b: 0, a: 0x88 } });
    match &g.nodes[1].op {
        FilterPrimitive::ComponentTransfer { input, red, green, alpha, .. } => {
            assert_eq!(*input, FilterInput::Named("f".into()));
            assert_eq!(*red, TransferFunction::Linear { slope: px(2), intercept: px(1) });
            assert_eq!(*green, TransferFunction::Identity);
            assert_eq!(*alpha, TransferFunction::Table(vec![px(0), px(1)]));
        }
        other => panic!("unexpected {other:?}"),
    }
}

#[test]
fn filter_graph_errors() {
    assert_eq!(parse_filter_graph("   ", FilterRegion::full(1, 1)).unwrap_err(), "filter graph is empty");
    assert_eq!(parse_filter_graph(";;", FilterRegion::full(1, 1)).unwrap_err(), "filter graph contains no primitives");
    assert_eq!(parse_filter_graph("blur()->", FilterRegion::full(1, 1)).unwrap_err(), "filter result name cannot be empty");
    assert_eq!(parse_filter_graph("blur", FilterRegion::full(1, 1)).unwrap_err(), "invalid filter primitive `blur`");
    assert_eq!(parse_filter_graph("blur()", FilterRegion::full(1, 1)).unwrap_err(), "feGaussianBlur requires sigma");
    assert_eq!(parse_filter_graph("blur(-1)", FilterRegion::full(1, 1)).unwrap_err(), "blur sigma must be finite and non-negative");
    assert_eq!(parse_filter_graph("blend(mode=burn)", FilterRegion::full(1, 1)).unwrap_err(), "unsupported blend mode `burn`");
    assert_eq!(parse_filter_graph("colorMatrix(1 2)", FilterRegion::full(1, 1)).unwrap_err(), "feColorMatrix matrix requires exactly 20 values");
    assert_eq!(parse_filter_graph("colorMatrix(values=1|x)", FilterRegion::full(1, 1)).unwrap_err(), "invalid filter number `x`");
    assert_eq!(parse_filter_graph("merge()", FilterRegion::full(1, 1)).unwrap_err(), "feMerge requires at least one input");
    assert_eq!(parse_filter_graph("morphology(operator=open)", FilterRegion::full(1, 1)).unwrap_err(), "unsupported morphology operator `open`");
    assert_eq!(parse_filter_graph("flood(color=red)", FilterRegion::full(1, 1)).unwrap_err(), "unsupported flood color `red`");
}

#[test]
fn checked_parse_refuses_sliced_flood_colours() {
    assert!(srng::filter_graph::graph_sliceable_exec("flood(color=#fff)->f"));
    assert!(!srng::filter_graph::graph_sliceable_exec("flood(color=#\u{e9}a)->f"));
    assert!(srng::filter_graph::graph_sliceable_exec("flood(color=#z\u{e9})->f"));
    assert!(srng::filter_graph::parse_filter_graph_checked("flood(color=#\u{e9}a)->f", FilterRegion::full(1, 1)).is_none());
    let r = srng::filter_graph::parse_filter_graph_checked("blur(1)", FilterRegion::full(1, 1)).unwrap().unwrap();
    assert_eq!(r.0.nodes.len(), 1);
}
