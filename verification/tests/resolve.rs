use srng::resolve::{
    check_format, collect_children, declaration_kind, reference_step, relation_activity, resolve_target, DeclKind, DeclRecord,
    ReferenceStep, ResolveStep,
};

fn node(id: &str, active: bool) -> DeclRecord {
    DeclRecord {
        decl_type: Some("node".into()),
        id: Some(id.into()),
        from: None,
        to: None,
        contains: false,
        valid: true,
        active,
        resource_only: false,
    }
}

fn contains(from: &str, to: &str) -> DeclRecord {
    DeclRecord {
        decl_type: Some("relation".into()),
        id: None,
        from: Some(from.into()),
        to: Some(to.into()),
        contains: true,
        valid: true,
        active: false,
        resource_only: false,
    }
}

fn failure(r: ResolveStep) -> (String, String) {
    match r {
        ResolveStep::Failed { code, message } => (code, message),
        _ => panic!("expected a failure"),
    }
}

#[test]
fn resolve_target_decisions() {
    let mut reference = node("r", true);
    reference.decl_type = Some("reference".into());
    let mut other = node("o", true);
    other.decl_type = Some("unit".into());
    let decls = vec![node("a", true), node("b", false), reference, other];
    assert!(matches!(resolve_target(&decls, "doc.srng", "a", "doc", 1, 8, &vec![]), ResolveStep::Node(0)));
    assert!(matches!(resolve_target(&decls, "doc.srng", "r", "doc", 1, 8, &vec![]), ResolveStep::Reference(2)));
    assert_eq!(failure(resolve_target(&decls, "doc.srng", "a", "doc", 9, 8, &vec![])), ("R232".into(), "reference depth exceeded while resolving `a`".into()));
    let stack = vec![("doc".to_string(), "x".to_string()), ("doc".to_string(), "a".to_string())];
    assert_eq!(failure(resolve_target(&decls, "doc.srng", "a", "doc", 1, 8, &stack)), ("R234".into(), "cyclic reference: doc#x -> doc#a -> doc#a".into()));
    assert_eq!(failure(resolve_target(&decls, "doc.srng", "z", "doc", 1, 8, &vec![])), ("R231".into(), "target `z` does not exist in `doc.srng`".into()));
    assert_eq!(failure(resolve_target(&decls, "doc.srng", "b", "doc", 1, 8, &vec![])), ("R235".into(), "target `b` has invalid geometry".into()));
    assert_eq!(
        failure(resolve_target(&decls, "doc.srng", "o", "doc", 1, 8, &vec![])),
        ("R235".into(), "target `o` in `doc.srng` is not a node or reference (found Some(\"unit\"))".into())
    );
}

#[test]
fn reference_step_decisions() {
    assert!(matches!(reference_step("r", "", "", 0, 8), ReferenceStep::Failed { code, .. } if code == "R230"));
    assert!(matches!(reference_step("r", "t", "", 8, 8), ReferenceStep::Failed { code, .. } if code == "R232"));
    assert!(matches!(reference_step("r", "t", "https://x/y.srng", 0, 8), ReferenceStep::Failed { code, .. } if code == "R233"));
    assert!(matches!(reference_step("r", "t", ".", 0, 8), ReferenceStep::Local));
    assert!(matches!(reference_step("r", "t", "lib.srng", 0, 8), ReferenceStep::External));
}

#[test]
fn resource_children_come_depth_first_with_root_ids() {
    let mut hidden = node("h", false);
    hidden.resource_only = true;
    let mut r = node("ref", true);
    r.decl_type = Some("reference".into());
    let decls = vec![node("root", true), node("a", true), node("a1", true), hidden, r, contains("root", "a"), contains("a", "a1"), contains("root", "h"), contains("root", "ref")];
    let (children, err) = collect_children(&decls, "root", "root");
    assert!(err.is_none());
    let ids: Vec<&str> = children.iter().map(|c| c.id.as_str()).collect();
    assert_eq!(ids, vec!["root::a", "root::a1", "root::h", "root::ref"]);
    assert_eq!(children[1].parent_source_id, "a");
    assert!(children[3].reference);
    let missing = vec![node("root", true), contains("root", "gone")];
    let (children, err) = collect_children(&missing, "root", "root");
    assert!(children.is_empty());
    assert_eq!(err, Some(("R231".to_string(), "resource child `gone` is missing".to_string())));
}

#[test]
fn relations_need_active_ends() {
    let rels = vec![
        ("a".to_string(), "b".to_string(), None),
        ("a".to_string(), "c".to_string(), Some("contains".to_string())),
        ("res".to_string(), "x".to_string(), Some("contains".to_string())),
    ];
    let (flags, diags) = relation_activity(&rels, &vec!["a".into(), "b".into()], &vec!["res".into()], "doc.srng");
    assert_eq!(flags, vec![true, false, false]);
    assert_eq!(diags.len(), 1);
    assert_eq!(diags[0].code, "R210");
    assert_eq!(diags[0].message, "relation `a -> c` has an inactive or missing endpoint");
    assert_eq!(diags[0].declaration.as_deref(), Some("a -> c"));
}

#[test]
fn declaration_types_and_format() {
    assert_eq!(declaration_kind(&Some("node".into()), "s").0, DeclKind::Node);
    assert_eq!(declaration_kind(&None, "s").0, DeclKind::Untyped);
    let (k, d) = declaration_kind(&Some("gizmo".into()), "s");
    assert_eq!(k, DeclKind::Unknown);
    assert_eq!(d.unwrap().message, "ignored unknown declaration type `gizmo`");
    assert!(check_format("SRNG-IR").is_ok());
    assert_eq!(check_format("X").unwrap_err(), "expected format `SRNG-IR`, found `X`");
}

fn pm(pairs: &[(&str, &str)]) -> Vec<(Vec<char>, Vec<char>)> {
    pairs.iter().map(|(k, v)| (k.chars().collect(), v.chars().collect())).collect()
}

#[test]
fn instance_style_overrides_inherited_paint_and_opacity() {
    let mut props = pm(&[("fill", "#ff0000"), ("resource-inherit-fill", "\"true\""), ("resource-inherit-stroke", "true"), ("stroke", "#00ff00")]);
    let instance = pm(&[("fill", "#0000ff"), ("opacity", "0.5")]);
    srng::resolve::apply_instance_style(&mut props, &instance);
    let get = |k: &str| props.iter().find(|(key, _)| key.iter().collect::<String>() == k).map(|(_, v)| v.iter().collect::<String>());
    assert_eq!(get("fill").as_deref(), Some("#0000ff"));
    assert_eq!(get("stroke").as_deref(), Some("none"));
    assert_eq!(get("opacity").as_deref(), Some("0.5"));
    let mut plain = pm(&[("fill", "#ff0000")]);
    srng::resolve::apply_instance_style(&mut plain, &instance);
    assert_eq!(plain.iter().find(|(k, _)| k.iter().collect::<String>() == "fill").map(|(_, v)| v.iter().collect::<String>()).as_deref(), Some("#ff0000"));
}
