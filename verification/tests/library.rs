use kdlfmt_core::{
    apply_formatting, capitalize_first, default_config_text, format_check, format_document,
    line_and_column, parse_kdl, remove_trailing_blank_lines_before_braces,
    rescue_entry_leading_comments, rescue_terminator_comments, DocTrivia, EntryTrivia, FmtError,
    IndentSizeSetting, IndentStyleSetting, KdlFmtConfig, KdlVersion, NodeTrivia, TriviaDoc,
    TriviaNode, TriviaProcessor,
};

fn chars(s: &str) -> Vec<char> {
    s.chars().collect()
}

fn text(v: &[char]) -> String {
    v.iter().collect()
}

fn process(config: &KdlFmtConfig, depth: usize, s: &str, inline: bool) -> String {
    let tp = TriviaProcessor::new(config, depth);
    text(&tp.process(&chars(s), inline))
}

#[test]
fn get_indent_builds_spaces_or_tabs() {
    assert_eq!(KdlFmtConfig::get_indent(3, false), "   ");
    assert_eq!(KdlFmtConfig::get_indent(2, true), "\t\t");
    assert_eq!(KdlFmtConfig::get_indent(0, true), "");
}

#[test]
fn option_keys_are_the_file_keys() {
    assert_eq!(KdlFmtConfig::indent_size_key(), "indent_size");
    assert_eq!(KdlFmtConfig::use_tabs_key(), "use_tabs");
    assert_eq!(KdlFmtConfig::newlines_before_comments_key(), "newlines_before_comments");
    assert_eq!(KdlFmtConfig::justify_first_property_key(), "justify_first_property");
    assert_eq!(KdlFmtConfig::newlines_after_close_key(), "newlines_after_close");
    assert_eq!(KdlFmtConfig::n_comment_lines_to_multiline_key(), "n_comment_lines_to_multiline");
    assert_eq!(
        KdlFmtConfig::remove_trailing_blank_lines_key(),
        "remove_trailing_blank_lines_in_blocks"
    );
    assert_eq!(KdlFmtConfig::collapse_empty_blocks_key(), "collapse_empty_blocks");
    assert_eq!(KdlFmtConfig::strip_empty_block_comments_key(), "strip_empty_block_comments");
    assert_eq!(
        KdlFmtConfig::normalize_single_line_block_comments_key(),
        "normalize_single_line_block_comments"
    );
}

#[test]
fn default_config_has_every_rule_off() {
    let cfg = KdlFmtConfig::default();
    assert!(!cfg.from_kdlfmt_file);
    assert_eq!(cfg.newlines_before_comments, [0; 5]);
    assert_eq!(cfg.newlines_after_close, [0; 5]);
    assert_eq!(cfg.n_comment_lines_to_multiline, None);
    assert!(!cfg.justify_first_property);
    assert!(!cfg.remove_trailing_blank_lines_in_blocks);
    assert!(!cfg.collapse_empty_blocks);
    assert!(!cfg.strip_empty_block_comments);
    assert!(!cfg.normalize_single_line_block_comments);
}

#[test]
fn capitalize_first_upper_cases_one_character() {
    assert_eq!(text(&capitalize_first(&chars("abc def"))), "Abc def");
    assert_eq!(text(&capitalize_first(&chars(""))), "");
    assert_eq!(text(&capitalize_first(&chars("ßx"))), "SSx");
    assert_eq!(text(&capitalize_first(&chars("1a"))), "1a");
}

#[test]
fn trivia_line_comment_is_linted_and_indented() {
    let cfg = KdlFmtConfig::default();
    assert_eq!(process(&cfg, 1, "//hello  ", false), "    // Hello");
    assert_eq!(process(&cfg, 2, "  //   ", false), "        //");
    assert_eq!(process(&cfg, 0, "", false), "");
    assert_eq!(process(&cfg, 0, "\n\n", false), "\n\n");
}

#[test]
fn trivia_block_comment_lines_lose_their_stars() {
    let cfg = KdlFmtConfig::default();
    assert_eq!(process(&cfg, 0, "/* x\n * y\n   */", false), "/* x\ny\n*/");
    assert_eq!(process(&cfg, 1, "/* see https://example.com */", false), "    /* see https://example.com */");
}

#[test]
fn trivia_slashdash_is_reindented() {
    let cfg = KdlFmtConfig::default();
    assert_eq!(process(&cfg, 1, " /- gone", false), "    /- gone");
    assert_eq!(process(&cfg, 1, " plain text ", false), " plain text ");
}

#[test]
fn trivia_empty_block_comments_are_stripped() {
    let cfg = KdlFmtConfig { strip_empty_block_comments: true, ..KdlFmtConfig::default() };
    assert_eq!(process(&cfg, 0, "/*   */\n// kept", false), "// Kept");
    assert_eq!(process(&cfg, 0, "/*\n\n  */\n", false), "");
    assert_eq!(process(&cfg, 0, "/*\nx\n*/", false), "/*\nx\n*/");
}

#[test]
fn trivia_single_line_block_becomes_line_comment() {
    let cfg =
        KdlFmtConfig { normalize_single_line_block_comments: true, ..KdlFmtConfig::default() };
    assert_eq!(process(&cfg, 0, "/* note this */", false), "// Note this");
    assert_eq!(process(&cfg, 0, "/* note this */", true), "/* note this */");
}

#[test]
fn trivia_comment_runs_become_blocks_at_threshold() {
    let cfg = KdlFmtConfig { n_comment_lines_to_multiline: Some(2), ..KdlFmtConfig::default() };
    assert_eq!(process(&cfg, 1, "// a\n  //\n// b", false), "    /*\n    a\n    \n    b\n    */");
    assert_eq!(process(&cfg, 0, "// only one", false), "// Only one");
    assert_eq!(process(&cfg, 0, "// a\n// b", true), "// A\n// B");
}

#[test]
fn blank_lines_before_closing_braces_are_removed() {
    assert_eq!(remove_trailing_blank_lines_before_braces("a {\n    b\n\n  \n}\n"), "a {\n    b\n}\n");
    assert_eq!(remove_trailing_blank_lines_before_braces("a\n\nb\n"), "a\n\nb\n");
    assert_eq!(remove_trailing_blank_lines_before_braces(""), "");
}

#[test]
fn line_and_column_counts_lines_and_characters() {
    assert_eq!(line_and_column("ab\ncd", 4), (2, 2));
    assert_eq!(line_and_column("ab\ncd", 0), (1, 1));
    assert_eq!(line_and_column("ab", 99), (1, 3));
    assert_eq!(line_and_column("é\nx", 3), (2, 1));
}

#[test]
fn parse_kdl_picks_the_version_that_accepts() {
    let (_, v) = parse_kdl("node #true\n", None, true).expect("v2 parses");
    assert_eq!(v, KdlVersion::V2);
    let (_, v) = parse_kdl("node true\n", None, true).expect("v1 parses");
    assert_eq!(v, KdlVersion::V1);
    assert!(parse_kdl("node true\n", Some(KdlVersion::V2), true).is_err());
    assert!(matches!(parse_kdl("node {", None, true), Err(FmtError::Parse(_))));
}

#[test]
fn error_messages_follow_their_formats() {
    assert_eq!(FmtError::InvalidConfig("x".to_string()).message(), "invalid config: x");
    let err = FmtError::ExpressionStringRejected {
        span: miette::SourceSpan::from((5, 6)),
        line: 12,
        column: 3,
        node_name: "rule".to_string(),
        entry_label: "argument 1".to_string(),
    };
    assert_eq!(
        err.message(),
        "Expression strings are disabled at line 12, column 3 in node `rule` argument 1. Re-run without `--no-expression-strings` to allow backtick-delimited values."
    );
    let io = FmtError::Io(std::io::Error::new(std::io::ErrorKind::NotFound, "missing"));
    assert_eq!(io.message(), "I/O: missing");
    let parse = parse_kdl("node {", Some(KdlVersion::V2), true).err().expect("fails");
    assert!(!parse.message().is_empty());
}

#[test]
fn config_file_sets_options() {
    let cfg = KdlFmtConfig::load_from_str(
        "indent_size 2\nuse_tabs #true\nnewlines_after_close {\n    level1 20\n    level3 -4\n}\nnewlines_before_comments {\n    level2 7\n}\nn_comment_lines_to_multiline 1\njustify_first_property #true\ncollapse_empty_blocks #false\n",
    )
    .expect("config parses");
    assert_eq!(cfg.indent, "\t\t");
    assert!(cfg.use_tabs);
    assert!(cfg.from_kdlfmt_file);
    assert_eq!(cfg.newlines_after_close, [10, 0, 0, 0, 0]);
    assert_eq!(cfg.newlines_before_comments, [0, 7, 0, 0, 0]);
    assert_eq!(cfg.n_comment_lines_to_multiline, Some(2));
    assert!(cfg.justify_first_property);
    assert!(!cfg.collapse_empty_blocks);
}

#[test]
fn config_file_without_options_gives_defaults() {
    let cfg = KdlFmtConfig::load_from_str("unrelated 1\nuse_tabs \"yes\"\n").expect("parses");
    assert!(!cfg.from_kdlfmt_file);
    assert_eq!(cfg.indent, "    ");
    assert!(!cfg.use_tabs);
}

#[test]
fn config_file_must_be_kdl() {
    assert!(matches!(KdlFmtConfig::load_from_str("a {"), Err(FmtError::Parse(_))));
}

#[test]
fn tabs_alone_indent_by_one_tab() {
    let cfg = KdlFmtConfig::load_from_str("use_tabs #true\n").expect("parses");
    assert_eq!(cfg.indent, "\t");
}

#[test]
fn editorconfig_settings_choose_the_indent() {
    let base = KdlFmtConfig { justify_first_property: true, ..KdlFmtConfig::default() };
    let c = base.with_editorconfig_settings(Some(IndentStyleSetting::Tabs), None, None);
    assert_eq!(c.indent, "\t");
    assert!(c.use_tabs);
    assert!(c.justify_first_property);
    let c = base.with_editorconfig_settings(
        Some(IndentStyleSetting::Spaces),
        Some(IndentSizeSetting::Value(2)),
        None,
    );
    assert_eq!(c.indent, "  ");
    let c = base.with_editorconfig_settings(None, Some(IndentSizeSetting::UseTabWidth), Some(8));
    assert_eq!(c.indent, "        ");
    let c = base.with_editorconfig_settings(None, Some(IndentSizeSetting::UseTabWidth), None);
    assert_eq!(c.indent, " ");
    let c = base.with_editorconfig_settings(None, None, None);
    assert_eq!(c.indent, "    ");
    assert!(!c.from_kdlfmt_file);
}

#[test]
fn default_config_text_loads_back_as_defaults() {
    let text = default_config_text(KdlVersion::V2);
    assert!(text.contains("indent_size 4"));
    let cfg = KdlFmtConfig::load_from_str(&text).expect("parses");
    assert_eq!(cfg.indent, "    ");
    assert!(!cfg.use_tabs);
    assert_eq!(cfg.newlines_before_comments, [0; 5]);
    assert!(!cfg.collapse_empty_blocks);
}

#[test]
fn format_check_with_blank_line_removal() {
    let cfg = KdlFmtConfig {
        remove_trailing_blank_lines_in_blocks: true,
        ..KdlFmtConfig::default()
    };
    let check = format_check("a {\n    b\n\n\n}\n", KdlVersion::V2, &cfg).expect("parses");
    assert!(!check.was_formatted);
    assert_eq!(check.would_write, "a {\n    b\n}\n");
    let again = format_check(&check.would_write, KdlVersion::V2, &cfg).expect("parses");
    assert!(again.was_formatted);
}

#[test]
fn format_document_refuses_wrong_version() {
    assert!(matches!(
        format_document("node true\n", KdlVersion::V2, &KdlFmtConfig::default()),
        Err(FmtError::Parse(_))
    ));
    let out = format_document("node true\n", KdlVersion::V1, &KdlFmtConfig::default())
        .expect("v1 parses");
    assert!(out.contains("node"));
}

#[test]
fn blank_lines_after_blocks_in_formatted_output() {
    let cfg = KdlFmtConfig { newlines_after_close: [2, 0, 0, 0, 0], ..KdlFmtConfig::default() };
    let out = format_document("a {\n    b\n}\nc\n", KdlVersion::V2, &cfg).expect("parses");
    assert!(out.contains("}\n\n\nc"), "got {out:?}");
}

fn node(name_len: usize, leading: &str, entries: Vec<Option<EntryTrivia>>) -> TriviaNode {
    TriviaNode {
        name_len,
        format: Some(NodeTrivia {
            leading: chars(leading),
            before_terminator: vec![],
            terminator: chars("\n"),
            trailing: vec![],
        }),
        entries,
        children: None,
    }
}

fn entry(leading: &str, trailing: &str) -> Option<EntryTrivia> {
    Some(EntryTrivia { leading: chars(leading), trailing: chars(trailing), keep: false })
}

#[test]
fn apply_formatting_justifies_first_entries() {
    let cfg = KdlFmtConfig { justify_first_property: true, ..KdlFmtConfig::default() };
    let mut doc = TriviaDoc {
        format: Some(DocTrivia { leading: vec![], trailing: vec![] }),
        nodes: vec![
            node(1, "", vec![entry(" ", ""), entry(" ", "")]),
            node(4, "", vec![entry(" /* c */", "")]),
            node(3, "// x", vec![entry("   ", "")]),
        ],
    };
    apply_formatting(&mut doc, &cfg, 0);
    let e0 = doc.nodes[0].entries[0].as_ref().unwrap();
    assert_eq!(text(&e0.leading), "    ");
    let e1 = doc.nodes[0].entries[1].as_ref().unwrap();
    assert_eq!(text(&e1.leading), " ");
    assert_eq!(text(&doc.nodes[1].entries[0].as_ref().unwrap().leading), " /* c */");
    assert_eq!(text(&doc.nodes[2].entries[0].as_ref().unwrap().leading), "  ");
    assert_eq!(text(&doc.nodes[2].format.as_ref().unwrap().leading), "// X");
}

#[test]
fn apply_formatting_adds_blank_lines_and_collapses() {
    let cfg = KdlFmtConfig {
        newlines_after_close: [1, 0, 0, 0, 0],
        newlines_before_comments: [2, 0, 0, 0, 0],
        collapse_empty_blocks: true,
        ..KdlFmtConfig::default()
    };
    let mut parent = node(1, "", vec![]);
    parent.children = Some(TriviaDoc {
        format: Some(DocTrivia { leading: chars("\n\n"), trailing: chars("  ") }),
        nodes: vec![],
    });
    let mut doc = TriviaDoc {
        format: None,
        nodes: vec![parent, node(1, "// hi", vec![]), node(1, "// there", vec![])],
    };
    apply_formatting(&mut doc, &cfg, 0);
    let children = doc.nodes[0].children.as_ref().unwrap().format.as_ref().unwrap();
    assert!(children.leading.is_empty() && children.trailing.is_empty());
    assert_eq!(text(&doc.nodes[1].format.as_ref().unwrap().leading), "\n\n\n// Hi");
    assert_eq!(text(&doc.nodes[2].format.as_ref().unwrap().leading), "\n\n// There");
}

#[test]
fn rescue_moves_terminator_comments_and_keeps_entry_comments() {
    let mut nodes = vec![TriviaNode {
        name_len: 4,
        format: Some(NodeTrivia {
            leading: vec![],
            before_terminator: chars(" "),
            terminator: chars("// c\r\n\n"),
            trailing: vec![],
        }),
        entries: vec![entry(" /* k */ ", ""), entry(" ", "")],
        children: None,
    }];
    rescue_terminator_comments(&mut nodes);
    rescue_entry_leading_comments(&mut nodes);
    let f = nodes[0].format.as_ref().unwrap();
    assert_eq!(text(&f.before_terminator), " // c");
    assert_eq!(text(&f.terminator), "\n");
    assert!(nodes[0].entries[0].as_ref().unwrap().keep);
    assert!(!nodes[0].entries[1].as_ref().unwrap().keep);
}

#[test]
fn rejected_expression_string_names_node_entry_and_position() {
    let input = "first 1\nsecond a=1 `expr`\n";
    let err = kdlfmt_core::parse_kdl(input, Some(kdlfmt_core::KdlVersion::V2), false)
        .err()
        .expect("expression string refused");
    assert_eq!(
        err.message(),
        "Expression strings are disabled at line 2, column 12 in node `second` argument 2. Re-run without `--no-expression-strings` to allow backtick-delimited values."
    );
}

#[test]
fn rejected_expression_string_property_label() {
    let input = "node key=`expr`\n";
    let err = kdlfmt_core::parse_kdl(input, None, false)
        .err()
        .expect("expression string refused");
    assert!(err.message().contains("in node `node` property `key`"));
}

#[test]
fn expression_strings_pass_when_allowed() {
    let input = "node `expr`\n";
    assert!(kdlfmt_core::parse_kdl(input, Some(kdlfmt_core::KdlVersion::V2), true).is_ok());
}

#[test]
fn block_comment_lines_lose_all_leading_stars_once() {
    let cfg = kdlfmt_core::KdlFmtConfig::default();
    let input = "/*\n * * x\n *   y\n */\nnode\n";
    let once = kdlfmt_core::format_document(input, kdlfmt_core::KdlVersion::V2, &cfg)
        .expect("formats");
    assert!(once.contains("\nx\n"), "got {once:?}");
    assert!(once.contains("\ny\n"), "got {once:?}");
    let twice = kdlfmt_core::format_document(&once, kdlfmt_core::KdlVersion::V2, &cfg)
        .expect("formats again");
    assert_eq!(once, twice);
}

#[test]
fn format_check_text_is_format_document_text() {
    let cfg = kdlfmt_core::KdlFmtConfig::default();
    let source = "a   1\nb {\n  c\n}\n";
    let doc_text = kdlfmt_core::format_document(source, kdlfmt_core::KdlVersion::V2, &cfg)
        .expect("formats");
    let check = kdlfmt_core::format_check(source, kdlfmt_core::KdlVersion::V2, &cfg)
        .expect("checks");
    assert_eq!(check.would_write, doc_text);
    assert!(!check.was_formatted);
    let (parsed, v) =
        kdlfmt_core::parse_kdl(source, Some(kdlfmt_core::KdlVersion::V2), true).expect("parses");
    assert_eq!(kdlfmt_core::format_kdl(parsed, &cfg, v), doc_text);
}

#[test]
fn io_error_message_has_prefix() {
    let err = kdlfmt_core::FmtError::Io(std::io::Error::new(std::io::ErrorKind::Other, "boom"));
    assert_eq!(err.message(), "I/O: boom");
}

#[test]
fn kdlfmt_file_takes_precedence_over_editorconfig() {
    let cfg = kdlfmt_core::KdlFmtConfig::load_from_str("use_tabs #true\n").expect("loads");
    assert!(!cfg.takes_editorconfig());
    assert!(kdlfmt_core::KdlFmtConfig::default().takes_editorconfig());
}
