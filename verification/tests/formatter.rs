use srng::formatter::format_srng;

#[test]
fn indents_blocks_without_touching_strings_or_comments() {
    let source = "srng 0.1;\nrect a {\ncontent: \"} {\"; // }\nfill: #fff;\n}\n";
    let expected = "srng 0.1;\nrect a {\n    content: \"} {\"; // }\n    fill: #fff;\n}\n";
    assert_eq!(format_srng(source), expected);
}

#[test]
fn formatting_is_idempotent() {
    let source = "srng 0.1;\n\nrect a {\n    fill: #fff;\n}\n";
    let once = format_srng(source);
    assert_eq!(format_srng(&once), once);
}

#[test]
fn formatter_drops_repeated_blank_lines_and_trailing_space() {
    let source = "srng 0.1;   \n\n\n\nrect a {\n\n\nfill: #fff;\n}\n\n\n";
    assert_eq!(format_srng(source), "srng 0.1;\n\nrect a {\n\n    fill: #fff;\n}\n");
}

#[test]
fn formatter_law_holds_on_nested_blocks() {
    let source = "a {\nb {\nc: 1;\n}\n}\n  } extra\n";
    let once = format_srng(source);
    assert_eq!(once, "a {\n    b {\n        c: 1;\n    }\n}\n} extra\n");
    assert_eq!(format_srng(&once), once);
}
