use kdlfmt_core::{format_kdl, parse_kdl, KdlFmtConfig, KdlVersion};
#[test]
fn it_should_be_reversible() {
    let input = "world {\n    child \"1\"\n    child \"2\"\n}\n";
    let (doc, version) =
        parse_kdl(input, Some(KdlVersion::V1), true).expect("it to parse valid kdl");
    let formatted = format_kdl(doc, &KdlFmtConfig::default(), version);
    assert_eq!(input, formatted);
}

#[test]
fn it_should_lint_leading_comment_uppercase() {
    // Leading comment before a node: lowercase first word → capitalised.
    let input = "// this starts lowercase\nnode\n";
    let (doc, version) =
        parse_kdl(input, Some(KdlVersion::V1), true).expect("it to parse valid kdl");
    let formatted = format_kdl(doc, &KdlFmtConfig::default(), version);
    assert!(
        formatted.contains("// This starts lowercase"),
        "expected capitalised leading comment, got: {formatted:?}"
    );
}

#[test]
fn it_should_lint_leading_comment_trailing_whitespace() {
    // Trailing whitespace on a leading comment line must be stripped.
    let input = "// trailing spaces   \nnode\n";
    let (doc, version) =
        parse_kdl(input, Some(KdlVersion::V1), true).expect("it to parse valid kdl");
    let formatted = format_kdl(doc, &KdlFmtConfig::default(), version);
    assert!(
        !formatted.contains("   "),
        "expected trailing whitespace stripped, got: {formatted:?}"
    );
}

#[test]
fn it_should_lint_leading_comment_single_space_after_marker() {
    // `//no-space` and `//  double-space` both get exactly one space.
    let input = "//nospace\nnode\n";
    let (doc, version) =
        parse_kdl(input, Some(KdlVersion::V1), true).expect("it to parse valid kdl");
    let formatted = format_kdl(doc, &KdlFmtConfig::default(), version);
    assert!(
        formatted.contains("// Nospace"),
        "expected '// Nospace', got: {formatted:?}"
    );
}

#[test]
fn it_should_lint_inline_comment_v1() {
    // Inline comment on the same line as a node (V1, where trivia is reliably preserved).
    let input = "node // inline lowercase  \n";
    let (doc, version) =
        parse_kdl(input, Some(KdlVersion::V1), true).expect("it to parse valid kdl");
    let formatted = format_kdl(doc, &KdlFmtConfig::default(), version);
    assert!(
        formatted.contains("// Inline lowercase"),
        "expected capitalised inline comment, got: {formatted:?}"
    );
    assert!(
        !formatted.contains("  "),
        "expected trailing whitespace stripped from inline comment, got: {formatted:?}"
    );
}

#[test]
fn it_should_rescue_and_lint_inline_comment_v2() {
    // In KDL v2 the parser puts inline comments into `terminator`, not
    // `before_terminator`. Our rescue pass moves them before autoformat discards them.
    let input = "node // inline lowercase  \n";
    let (doc, version) =
        parse_kdl(input, Some(KdlVersion::V2), true).expect("it to parse valid kdl");
    let formatted = format_kdl(doc, &KdlFmtConfig::default(), version);
    assert!(
        formatted.contains("// Inline lowercase"),
        "expected rescued+capitalised v2 inline comment, got: {formatted:?}"
    );
}

#[test]
fn it_should_rescue_inline_comment_v2_with_entries() {
    // Inline comment after an entry value should also be rescued.
    let input = "node \"val\" // entry comment  \n";
    let (doc, version) =
        parse_kdl(input, Some(KdlVersion::V2), true).expect("it to parse valid kdl");
    let formatted = format_kdl(doc, &KdlFmtConfig::default(), version);
    assert!(
        formatted.contains("// Entry comment"),
        "expected rescued+capitalised entry-line comment, got: {formatted:?}"
    );
}

#[test]
fn it_should_justify_first_property() {
    // "short" (5) vs "longer" (6): first entry of "short" gets an extra space.
    let input = "short \"a\"\nlonger \"b\"\n";
    let (doc, version) =
        parse_kdl(input, Some(KdlVersion::V1), true).expect("it to parse valid kdl");
    let config = KdlFmtConfig {
        justify_first_property: true,
        ..KdlFmtConfig::default()
    };
    let formatted = format_kdl(doc, &config, version);
    assert!(
        formatted.contains("short  \"a\""),
        "expected 2-space gap after 'short', got: {formatted:?}"
    );
    assert!(
        formatted.contains("longer \"b\""),
        "expected 1-space gap after 'longer', got: {formatted:?}"
    );
}

#[test]
fn it_should_justify_recursively() {
    // Justify applies to children independently of their parent group.
    let input = "parent {\n    a \"x\"\n    bb \"y\"\n}\n";
    let (doc, version) =
        parse_kdl(input, Some(KdlVersion::V1), true).expect("it to parse valid kdl");
    let config = KdlFmtConfig {
        justify_first_property: true,
        ..KdlFmtConfig::default()
    };
    let formatted = format_kdl(doc, &config, version);
    // "a" (1) vs "bb" (2): "a" gets 2 spaces, "bb" gets 1.
    assert!(
        formatted.contains("a  \"x\""),
        "expected 2-space gap after 'a', got: {formatted:?}"
    );
    assert!(
        formatted.contains("bb \"y\""),
        "expected 1-space gap after 'bb', got: {formatted:?}"
    );
}

#[test]
fn it_should_add_newlines_after_close_level1() {
    // With newlines_after_close level1=1, a blank line is inserted after
    // the closing brace of each top-level block node.
    let input = "first {\n    child\n}\nsecond\nthird {\n    child\n}\nfourth\n";
    let (doc, version) =
        parse_kdl(input, Some(KdlVersion::V1), true).expect("it to parse valid kdl");
    let config = KdlFmtConfig {
        newlines_after_close: [1, 0, 0, 0, 0],
        ..KdlFmtConfig::default()
    };
    let formatted = format_kdl(doc, &config, version);
    assert!(
        formatted.contains("}\n\nsecond"),
        "expected blank line after first block close, got: {formatted:?}"
    );
    assert!(
        formatted.contains("}\n\nfourth"),
        "expected blank line after third block close, got: {formatted:?}"
    );
    assert!(
        formatted.contains("second\nthird"),
        "expected no extra line between non-block nodes, got: {formatted:?}"
    );
}

#[test]
fn it_should_add_newlines_after_close_level2() {
    // With level2=1, blank lines appear after nested block closes but not top-level.
    let input = "parent {\n    a {\n        leaf\n    }\n    b\n}\n";
    let (doc, version) =
        parse_kdl(input, Some(KdlVersion::V1), true).expect("it to parse valid kdl");
    let config = KdlFmtConfig {
        newlines_after_close: [0, 1, 0, 0, 0],
        ..KdlFmtConfig::default()
    };
    let formatted = format_kdl(doc, &config, version);
    assert!(
        formatted.contains("}\n\n    b"),
        "expected blank line after nested block close, got: {formatted:?}"
    );
}

#[test]
fn it_should_convert_comment_lines_to_multiline() {
    // Three consecutive // lines meet the threshold of 3 and become /* */.
    let input = "// Line one\n// Line two\n// Line three\nnode\n";
    let (doc, version) =
        parse_kdl(input, Some(KdlVersion::V1), true).expect("it to parse valid kdl");
    let config = KdlFmtConfig {
        n_comment_lines_to_multiline: Some(3),
        ..KdlFmtConfig::default()
    };
    let formatted = format_kdl(doc, &config, version);
    assert!(
        formatted.contains("/*"),
        "expected multiline comment open, got: {formatted:?}"
    );
    assert!(
        formatted.contains("\nLine one\n"),
        "expected content without * prefix, got: {formatted:?}"
    );
    assert!(
        formatted.contains("\n*/\n"),
        "expected multiline comment close without space, got: {formatted:?}"
    );
    assert!(
        !formatted.contains("//"),
        "expected no remaining // comments, got: {formatted:?}"
    );
}

#[test]
fn it_should_indent_multiline_comment_in_block() {
    // /* and */ lines must be indented to match the depth of their block.
    let input = "parent {\n    // Line one\n    // Line two\n    child\n}\n";
    let (doc, version) =
        parse_kdl(input, Some(KdlVersion::V1), true).expect("it to parse valid kdl");
    let config = KdlFmtConfig {
        n_comment_lines_to_multiline: Some(2),
        ..KdlFmtConfig::default()
    };
    let formatted = format_kdl(doc, &config, version);
    assert!(
        formatted.contains("    /*"),
        "expected 4-space-indented /* in block, got: {formatted:?}"
    );
    assert!(
        !formatted.contains("\n/*"),
        "expected no unindented /* at top of line, got: {formatted:?}"
    );
}

#[test]
fn it_should_not_convert_comment_lines_below_threshold() {
    // Two // lines do not meet threshold of 3 — stay as //.
    let input = "// Line one\n// Line two\nnode\n";
    let (doc, version) =
        parse_kdl(input, Some(KdlVersion::V1), true).expect("it to parse valid kdl");
    let config = KdlFmtConfig {
        n_comment_lines_to_multiline: Some(3),
        ..KdlFmtConfig::default()
    };
    let formatted = format_kdl(doc, &config, version);
    assert!(
        formatted.contains("//"),
        "expected // comments preserved below threshold, got: {formatted:?}"
    );
    assert!(
        !formatted.contains("/*"),
        "expected no multiline comment, got: {formatted:?}"
    );
}

#[test]
fn it_should_not_treat_url_as_comment_marker() {
    // :// in a URL inside a /* */ block must not be mistaken for a comment.
    let input = "/* See https://example.com for details */\nnode\n";
    let (doc, version) =
        parse_kdl(input, Some(KdlVersion::V1), true).expect("it to parse valid kdl");
    let formatted = format_kdl(doc, &KdlFmtConfig::default(), version);
    assert!(
        formatted.contains("https://example.com"),
        "expected URL preserved, got: {formatted:?}"
    );
    assert!(
        !formatted.contains("https:// Example.com"),
        "expected URL not split by lint, got: {formatted:?}"
    );
}

#[test]
fn it_should_not_lint_inside_block_comment() {
    // Content lines inside /* */ blocks must not be capitalised or reformatted.
    let input = "/* see https://example.com\n * another line\n */\nnode\n";
    let (doc, version) =
        parse_kdl(input, Some(KdlVersion::V1), true).expect("it to parse valid kdl");
    let formatted = format_kdl(doc, &KdlFmtConfig::default(), version);
    assert!(
        formatted.contains("https://example.com"),
        "expected URL inside block comment preserved, got: {formatted:?}"
    );
    assert!(
        !formatted.contains("Https://"),
        "expected no capitalised URL, got: {formatted:?}"
    );
}

#[test]
fn it_should_remove_trailing_blank_lines_in_blocks() {
    let input = "parent {\n    child\n\n\n}\n";
    let (doc, version) =
        parse_kdl(input, Some(KdlVersion::V1), true).expect("it to parse valid kdl");
    let config = KdlFmtConfig {
        remove_trailing_blank_lines_in_blocks: true,
        ..KdlFmtConfig::default()
    };
    let formatted = format_kdl(doc, &config, version);
    assert!(
        formatted.contains("child\n}"),
        "expected no blank line before closing brace, got: {formatted:?}"
    );
}

#[test]
fn it_should_collapse_empty_blocks() {
    let input = "parent {\n\n}\nsibling\n";
    let (doc, version) =
        parse_kdl(input, Some(KdlVersion::V1), true).expect("it to parse valid kdl");
    let config = KdlFmtConfig {
        collapse_empty_blocks: true,
        ..KdlFmtConfig::default()
    };
    let formatted = format_kdl(doc, &config, version);
    assert!(
        formatted.contains("parent {}"),
        "expected collapsed empty block, got: {formatted:?}"
    );
    assert!(
        !formatted.contains("parent {\n"),
        "expected no multi-line empty block, got: {formatted:?}"
    );
}

#[test]
fn it_should_not_collapse_non_empty_blocks() {
    let input = "parent {\n    child\n}\n";
    let (doc, version) =
        parse_kdl(input, Some(KdlVersion::V1), true).expect("it to parse valid kdl");
    let config = KdlFmtConfig {
        collapse_empty_blocks: true,
        ..KdlFmtConfig::default()
    };
    let formatted = format_kdl(doc, &config, version);
    assert!(
        formatted.contains("parent {\n    child\n}"),
        "expected non-empty block unchanged, got: {formatted:?}"
    );
}

#[test]
fn it_should_fix_multiline_block_indent_in_block() {
    // A /* */ block whose opening line has the wrong indent should be
    // re-indented to match its depth, including content and closing lines.
    let input = "parent {\n /*\n     * Content line\n     */\n    child\n}\n";
    let (doc, version) =
        parse_kdl(input, Some(KdlVersion::V1), true).expect("it to parse valid kdl");
    let formatted = format_kdl(doc, &KdlFmtConfig::default(), version);
    assert!(
        formatted.contains("    /*"),
        "expected 4-space-indented /*, got: {formatted:?}"
    );
    assert!(
        !formatted.contains("\n /*\n"),
        "expected no single-space-indented /* line, got: {formatted:?}"
    );
    assert!(
        formatted.contains("    Content line"),
        "expected content line at correct indent (no * prefix), got: {formatted:?}"
    );
}

#[test]
fn it_should_indent_comments_to_node_level() {
    // A badly-indented comment inside a block should be fixed to match the child depth.
    let input = "parent {\n// bad indent\n    child\n}\n";
    let (doc, version) =
        parse_kdl(input, Some(KdlVersion::V1), true).expect("it to parse valid kdl");
    let formatted = format_kdl(doc, &KdlFmtConfig::default(), version);
    assert!(
        formatted.contains("    // Bad indent"),
        "expected comment indented to child level, got: {formatted:?}"
    );
}

#[test]
fn it_should_add_newlines_before_comments_level1() {
    // With newlines_before_comments level1=1, a blank line is inserted before
    // each top-level node whose leading trivia contains a comment.
    let input = "first\n// A comment\nsecond\n";
    let (doc, version) =
        parse_kdl(input, Some(KdlVersion::V1), true).expect("it to parse valid kdl");
    let config = KdlFmtConfig {
        newlines_before_comments: [1, 0, 0, 0, 0],
        ..KdlFmtConfig::default()
    };
    let formatted = format_kdl(doc, &config, version);
    assert!(
        formatted.contains("\n\n// A comment"),
        "expected blank line before comment, got: {formatted:?}"
    );
}

#[test]
fn it_should_add_newlines_before_comments_level2() {
    // level1=0, level2=1: no extra line at top-level, but blank before
    // comment-bearing child nodes.
    let input = "parent {\n    a\n    // Child comment\n    b\n}\n";
    let (doc, version) =
        parse_kdl(input, Some(KdlVersion::V1), true).expect("it to parse valid kdl");
    let config = KdlFmtConfig {
        newlines_before_comments: [0, 1, 0, 0, 0],
        ..KdlFmtConfig::default()
    };
    let formatted = format_kdl(doc, &config, version);
    assert!(
        formatted.contains("\n\n    // Child comment"),
        "expected blank line before child comment, got: {formatted:?}"
    );
}

#[test]
fn it_should_fix_slashdash_indentation() {
    // A /- node with wrong indentation inside a block should be re-indented
    // to match sibling nodes at that depth.
    let input = "parent {\n /- bad-indent\n    child\n}\n";
    let (doc, version) =
        parse_kdl(input, Some(KdlVersion::V1), true).expect("it to parse valid kdl");
    let formatted = format_kdl(doc, &KdlFmtConfig::default(), version);
    assert!(
        formatted.contains("    /- bad-indent"),
        "expected 4-space-indented /- node, got: {formatted:?}"
    );
    assert!(
        !formatted.contains("\n /- "),
        "expected no 1-space-indented /- node, got: {formatted:?}"
    );
}

#[test]
fn it_should_strip_empty_block_comments() {
    // A /* */ block whose only content is blank lines should be removed.
    let input = "/*\n\n\n*/\nnode\n";
    let (doc, version) =
        parse_kdl(input, Some(KdlVersion::V1), true).expect("it to parse valid kdl");
    let config = KdlFmtConfig {
        strip_empty_block_comments: true,
        ..KdlFmtConfig::default()
    };
    let formatted = format_kdl(doc, &config, version);
    assert!(
        !formatted.contains("/*"),
        "expected empty block comment removed, got: {formatted:?}"
    );
}

#[test]
fn it_should_strip_single_line_empty_block_comment() {
    // A /* */ on one line with only whitespace inside should be removed.
    let input = "/* */\nnode\n";
    let (doc, version) =
        parse_kdl(input, Some(KdlVersion::V1), true).expect("it to parse valid kdl");
    let config = KdlFmtConfig {
        strip_empty_block_comments: true,
        ..KdlFmtConfig::default()
    };
    let formatted = format_kdl(doc, &config, version);
    assert!(
        !formatted.contains("/*"),
        "expected empty single-line block comment removed, got: {formatted:?}"
    );
}

#[test]
fn it_should_not_strip_non_empty_block_comment() {
    // A /* */ block with real content must not be stripped.
    let input = "/* Some content */\nnode\n";
    let (doc, version) =
        parse_kdl(input, Some(KdlVersion::V1), true).expect("it to parse valid kdl");
    let config = KdlFmtConfig {
        strip_empty_block_comments: true,
        ..KdlFmtConfig::default()
    };
    let formatted = format_kdl(doc, &config, version);
    assert!(
        formatted.contains("Some content"),
        "expected non-empty block comment preserved, got: {formatted:?}"
    );
}

#[test]
fn it_should_normalize_single_line_block_to_line_comment() {
    // /* content */ on one line becomes // content.
    let input = "/* This is a note */\nnode\n";
    let (doc, version) =
        parse_kdl(input, Some(KdlVersion::V1), true).expect("it to parse valid kdl");
    let config = KdlFmtConfig {
        normalize_single_line_block_comments: true,
        ..KdlFmtConfig::default()
    };
    let formatted = format_kdl(doc, &config, version);
    assert!(
        formatted.contains("// This is a note"),
        "expected // comment, got: {formatted:?}"
    );
    assert!(
        !formatted.contains("/*"),
        "expected no /* remaining, got: {formatted:?}"
    );
}

#[test]
fn it_should_normalize_and_lint_converted_line_comment() {
    // After normalize, the new // line should be linted (capitalised).
    let input = "/* lowercase start */\nnode\n";
    let (doc, version) =
        parse_kdl(input, Some(KdlVersion::V1), true).expect("it to parse valid kdl");
    let config = KdlFmtConfig {
        normalize_single_line_block_comments: true,
        ..KdlFmtConfig::default()
    };
    let formatted = format_kdl(doc, &config, version);
    assert!(
        formatted.contains("// Lowercase start"),
        "expected capitalised // comment after normalize, got: {formatted:?}"
    );
}

#[test]
fn it_should_not_normalize_multiline_block_comment() {
    // A /* */ that spans multiple lines must not be converted to //.
    let input = "/*\nMulti-line content\n*/\nnode\n";
    let (doc, version) =
        parse_kdl(input, Some(KdlVersion::V1), true).expect("it to parse valid kdl");
    let config = KdlFmtConfig {
        normalize_single_line_block_comments: true,
        ..KdlFmtConfig::default()
    };
    let formatted = format_kdl(doc, &config, version);
    assert!(
        formatted.contains("/*"),
        "expected multi-line block comment kept as /*, got: {formatted:?}"
    );
    assert!(
        !formatted.contains("// Multi"),
        "expected no // conversion of multi-line block, got: {formatted:?}"
    );
}

#[test]
fn kdl_it_should_preserve_comments_before_first_entry_during_justification() {
    // If justify_first_property is true, it shouldn't delete comments between
    // the node name and the first entry.
    let input = "node /* important */ key=\"val\"\n";
    let (doc, version) =
        parse_kdl(input, Some(KdlVersion::V1), true).expect("it to parse valid kdl");
    let config = KdlFmtConfig {
        justify_first_property: true,
        ..KdlFmtConfig::default()
    };
    let formatted = format_kdl(doc, &config, version);
    assert!(
        formatted.contains("/* important */"),
        "expected comment preserved, got: {formatted:?}"
    );
}

#[test]
fn kdl_it_should_handle_deeply_nested_nodes_beyond_config_limit() {
    // Config only goes to level 5. Ensure level 6 doesn't crash and uses reasonable defaults.
    let input = "l1 {\n l2 {\n  l3 {\n   l4 {\n    l5 {\n     l6\n    }\n   }\n  }\n }\n}\n";
    let (doc, version) =
        parse_kdl(input, Some(KdlVersion::V1), true).expect("it to parse valid kdl");
    let config = KdlFmtConfig::default();
    let _formatted = format_kdl(doc, &config, version);
    // If it didn't panic, it's at least safe.
}

#[test]
fn kdl_it_should_format_slashdash_nodes() {
    let input = "parent {\n    /- commented-node {\n        child\n    }\n    active-node\n}\n";
    let (doc, version) =
        parse_kdl(input, Some(KdlVersion::V1), true).expect("it to parse valid kdl");
    let config = KdlFmtConfig::default();
    let formatted = format_kdl(doc, &config, version);
    assert!(
        formatted.contains("/- commented-node"),
        "expected commented node preserved, got: {formatted:?}"
    );
    assert!(
        formatted.contains("child"),
        "expected content inside commented node preserved, got: {formatted:?}"
    );
}
