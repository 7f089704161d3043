//! Parsing KDL text and formatting a parsed document.

use vstd::prelude::*;

use crate::blank_lines::{
    blank_before_brace, lemma_next_content_bounds, lemma_no_blank_line_before_brace,
    lemma_output_lines_from_input, next_content, remove_trailing_blank_lines_before_braces,
    without_blank_lines_before_braces, drop_blank_before_braces, close_brace,
};
use crate::config::KdlFmtConfig;
use crate::error::FmtError;
use crate::kdl_bridge::{
    autoformat, ensure_v1, ensure_v2, kdl_v1_accepts, kdl_v2_accepts, parse_v1, parse_v2,
    read_doc, render, write_doc, kdl_parsed_v1, kdl_parsed_v2, kdl_autoformatted, kdl_ensured_v1,
    kdl_ensured_v2, kdl_printed, doc_read, written_doc, doc_format_view, expression_offset_ok,
    find_expression_string, first_expression_in_doc, kdl_v1_error, kdl_v2_error, kdl_entry_name, kdl_entry_span,
    kdl_node_entries, kdl_node_name, miette_span_offset, span_offset,
};
use crate::error::{decimal, decimal_chars};
use crate::same::{
    lemma_doc_formatted_same, lemma_doc_read_unique, lemma_entry_comments_kept_same,
    lemma_terminator_rescued_same, lemma_written_doc_same, same_doc,
};
use crate::config::kdl_format_config;
use crate::text::{
    chars_of, push_all, string_of, is_blank, join_lines, lemma_split_join, lemma_split_lines_no_newline, no_newline, split_lines, trim,
};
use crate::tree::{
    apply_formatting, doc_formatted, nodes_entry_comments_kept, nodes_terminator_rescued,
    rescue_entry_leading_comments, rescue_terminator_comments, TriviaDoc, TriviaNode,
};
use crate::version::KdlVersion;

verus! {

/// Whether the parser of `version` accepts `input`.
pub open spec fn accepted_by(version: KdlVersion, input: Seq<char>) -> bool {
    match version {
        KdlVersion::V1 => kdl_v1_accepts(input),
        KdlVersion::V2 => kdl_v2_accepts(input),
    }
}

/// The document that the parser of `version` returns for `input`.
pub open spec fn parsed_by(version: KdlVersion, input: Seq<char>) -> kdl::KdlDocument {
    match version {
        KdlVersion::V1 => kdl_parsed_v1(input),
        KdlVersion::V2 => kdl_parsed_v2(input),
    }
}

/// Whether the text is KDL as `parse_kdl` is asked to read it: of the given
/// version, or, with none given, of either.
pub open spec fn parse_accepted(version: Option<KdlVersion>, input: Seq<char>) -> bool {
    match version {
        Some(v) => accepted_by(v, input),
        None => kdl_v2_accepts(input) || kdl_v1_accepts(input),
    }
}

/// The version `parse_kdl` reads the text as: the one asked for, or, with
/// none given, v2 when the v2 parser accepts it and v1 otherwise.
pub open spec fn requested_version(version: Option<KdlVersion>, input: Seq<char>) -> KdlVersion {
    match version {
        Some(v) => v,
        None => if kdl_v2_accepts(input) {
            KdlVersion::V2
        } else {
            KdlVersion::V1
        },
    }
}

/// The parser's error for a text that `parse_kdl` refuses as KDL: that of
/// the version asked for, or, with none given, that of KDL v1 (tried last).
pub open spec fn parse_error(version: Option<KdlVersion>, input: Seq<char>) -> kdl::KdlError {
    match version {
        Some(KdlVersion::V2) => kdl_v2_error(input),
        _ => kdl_v1_error(input),
    }
}

/// How the error names an expression string: `property `name`` for a
/// property, `argument N` (counting entries from 1) otherwise.
pub open spec fn expression_label(property: Option<Seq<char>>, k: int) -> Seq<char> {
    match property {
        Some(p) => "property `"@ + p + "`"@,
        None => "argument "@ + decimal((k + 1) as nat),
    }
}

/// `e` reports the first expression string of `doc`: its span, the line
/// and column where that span starts in `input`, the node's name, and which
/// entry it is.
pub open spec fn expression_rejected(e: FmtError, input: Seq<char>, doc: kdl::KdlDocument) -> bool {
    match first_expression_in_doc(doc, usize::MAX as nat) {
        Some((n, k)) => {
            let entry = kdl_node_entries(n)[k];
            let offset = miette_span_offset(kdl_entry_span(entry));
            &&& e matches FmtError::ExpressionStringRejected {
                span,
                line,
                column,
                node_name,
                entry_label,
            }
            &&& e->span == kdl_entry_span(entry)
            &&& (e->line as nat, e->column as nat) == position_after(
                input.take(chars_within(input, offset as int) as int),
            )
            &&& e->node_name@ == kdl_node_name(n)
            &&& e->entry_label@ == expression_label(kdl_entry_name(entry), k)
        },
        None => false,
    }
}

/// Refuses a document with an expression string (a value written between
/// backticks): the error names the first one, depth first, with its line
/// and column in `input`.
fn reject_expression_strings(doc: &kdl::KdlDocument, input: &str) -> (r: Result<(), FmtError>)
    requires
        input@.len() < usize::MAX,
        expression_offset_ok(input@, *doc),
    ensures
        r is Ok <==> first_expression_in_doc(*doc, usize::MAX as nat) is None,
        r matches Err(e) ==> expression_rejected(e, input@, *doc),
{
    match find_expression_string(doc, usize::MAX) {
        None => Ok(()),
        Some(site) => {
            let offset = span_offset(&site.span);
            let (line, column) = line_and_column(input, offset);
            let mut label: Vec<char>;
            match &site.property {
                Some(p) => {
                    label = chars_of("property `");
                    push_all(&mut label, p.as_slice());
                    push_all(&mut label, chars_of("`").as_slice());
                },
                None => {
                    label = chars_of("argument ");
                    push_all(&mut label, decimal_chars(site.index + 1).as_slice());
                },
            }
            let e = FmtError::ExpressionStringRejected {
                span: site.span,
                line,
                column,
                node_name: string_of(site.node_name.as_slice()),
                entry_label: string_of(label.as_slice()),
            };
            Err(e)
        },
    }
}

/// Parses `input` as KDL of the given version, or, with no version given,
/// as KDL v2 and, failing that, as KDL v1. Returns the document and the
/// version it was read as. Unless `allow_expression_strings` is set, a
/// document with an expression string (a value written between backticks)
/// is refused with an error that names the first one.
pub fn parse_kdl(input: &str, version: Option<KdlVersion>, allow_expression_strings: bool) -> (r:
    Result<(kdl::KdlDocument, KdlVersion), FmtError>)
    requires
        !allow_expression_strings ==> input@.len() < usize::MAX,
    ensures
        r is Ok <==> parse_accepted(version, input@) && (allow_expression_strings
            || first_expression_in_doc(
            parsed_by(requested_version(version, input@), input@),
            usize::MAX as nat,
        ) is None),
        r matches Ok((d, got)) ==> got == requested_version(version, input@) && d == parsed_by(
            got,
            input@,
        ),
        r matches Err(e) ==> if parse_accepted(version, input@) {
            expression_rejected(e, input@, parsed_by(requested_version(version, input@), input@))
        } else {
            e == FmtError::Parse(parse_error(version, input@))
        },
{
    let parsed = match version {
        Some(KdlVersion::V1) => match parse_v1(input) {
            Ok(doc) => Ok((doc, KdlVersion::V1)),
            Err(e) => Err(FmtError::Parse(e)),
        },
        Some(KdlVersion::V2) => match parse_v2(input) {
            Ok(doc) => Ok((doc, KdlVersion::V2)),
            Err(e) => Err(FmtError::Parse(e)),
        },
        None => match parse_v2(input) {
            Ok(doc) => Ok((doc, KdlVersion::V2)),
            Err(_) => match parse_v1(input) {
                Ok(doc) => Ok((doc, KdlVersion::V1)),
                Err(e) => Err(FmtError::Parse(e)),
            },
        },
    };
    match parsed {
        Ok((doc, got)) => {
            if allow_expression_strings {
                Ok((doc, got))
            } else {
                match reject_expression_strings(&doc, input) {
                    Ok(()) => Ok((doc, got)),
                    Err(e) => Err(e),
                }
            }
        },
        Err(e) => Err(e),
    }
}

/// No blank line of `s` is directly followed by a line holding only `}`
/// (up to whitespace).
pub open spec fn no_blank_line_before_brace(s: Seq<char>) -> bool {
    let lines = split_lines(s);
    forall|k: int|
        0 <= k < lines.len() - 1 ==> !(is_blank(#[trigger] lines[k]) && trim(lines[k + 1])
            == close_brace())
}

/// The last step of formatting, on the printed document: blank lines before
/// closing braces are removed when the configuration asks for it.
pub fn finish_output(output: String, config: &KdlFmtConfig) -> (r: String)
    ensures
        r@ == (if config.remove_trailing_blank_lines_in_blocks {
            without_blank_lines_before_braces(output@)
        } else {
            output@
        }),
{
    if config.remove_trailing_blank_lines_in_blocks {
        remove_trailing_blank_lines_before_braces(output.as_str())
    } else {
        output
    }
}

/// The text as the last step leaves it: blank lines before closing braces
/// removed when the configuration asks for it.
pub open spec fn finished(config: KdlFmtConfig, output: Seq<char>) -> Seq<char> {
    if config.remove_trailing_blank_lines_in_blocks {
        without_blank_lines_before_braces(output)
    } else {
        output
    }
}

/// The steps of formatting `doc`, each fixed by the one before: `t0` is the
/// document's trivia, `rescued` its nodes after the terminator comments are
/// rescued, `t1` the trivia after the entry comments are kept too, which is
/// written back; the document is then autoformatted and brought to the
/// version's syntax; `t2` is its trivia then, `t3` that trivia with the
/// configured rules applied, which is written back; `out` is the printed
/// document, finished.
pub open spec fn formatting_steps(
    doc: kdl::KdlDocument,
    config: KdlFmtConfig,
    version: KdlVersion,
    t0: TriviaDoc,
    rescued: Seq<TriviaNode>,
    t1: TriviaDoc,
    t2: TriviaDoc,
    t3: TriviaDoc,
    out: Seq<char>,
) -> bool {
    let d1 = written_doc(doc, t1);
    let d2 = kdl_autoformatted(d1, kdl_format_config(config.indent@));
    let d3 = match version {
        KdlVersion::V1 => kdl_ensured_v1(d2),
        KdlVersion::V2 => kdl_ensured_v2(d2),
    };
    &&& doc_read(doc, usize::MAX as nat, t0)
    &&& nodes_terminator_rescued(t0.nodes@, rescued)
    &&& nodes_entry_comments_kept(rescued, t1.nodes@)
    &&& doc_format_view(t1.format) == doc_format_view(t0.format)
    &&& doc_read(d3, usize::MAX as nat, t2)
    &&& doc_formatted(t2, t3, config, 0, false)
    &&& out == finished(config, kdl_printed(written_doc(d3, t3)))
}

/// `out` is what formatting `doc` with `config` for `version` gives.
pub open spec fn formats_to(
    doc: kdl::KdlDocument,
    config: KdlFmtConfig,
    version: KdlVersion,
    out: Seq<char>,
) -> bool {
    exists|t0: TriviaDoc, rescued: Seq<TriviaNode>, t1: TriviaDoc, t2: TriviaDoc, t3: TriviaDoc|
        formatting_steps(doc, config, version, t0, rescued, t1, t2, t3, out)
}

/// Formatting a document has one result: two texts that both are what
/// formatting `doc` with `config` for `version` gives are the same text. So
/// `format_kdl`, `format_document` and `format_check` give the same text for
/// the same document, configuration and version, and `format_document` is
/// `format_kdl` of what `parse_kdl` reads.
pub proof fn lemma_formats_to_unique(
    doc: kdl::KdlDocument,
    config: KdlFmtConfig,
    version: KdlVersion,
    a: Seq<char>,
    b: Seq<char>,
)
    requires
        formats_to(doc, config, version, a),
        formats_to(doc, config, version, b),
    ensures
        a == b,
{
    let (t0, r, t1, t2, t3) = choose|
        t0: TriviaDoc,
        r: Seq<TriviaNode>,
        t1: TriviaDoc,
        t2: TriviaDoc,
        t3: TriviaDoc,
    | formatting_steps(doc, config, version, t0, r, t1, t2, t3, a);
    let (u0, q, u1, u2, u3) = choose|
        u0: TriviaDoc,
        q: Seq<TriviaNode>,
        u1: TriviaDoc,
        u2: TriviaDoc,
        u3: TriviaDoc,
    | formatting_steps(doc, config, version, u0, q, u1, u2, u3, b);
    lemma_doc_read_unique(doc, usize::MAX as nat, t0, u0);
    lemma_terminator_rescued_same(t0.nodes@, r, u0.nodes@, q);
    lemma_entry_comments_kept_same(r, t1.nodes@, q, u1.nodes@);
    assert(same_doc(t1, u1));
    lemma_written_doc_same(doc, t1, u1);
    let d2 = kdl_autoformatted(written_doc(doc, t1), kdl_format_config(config.indent@));
    let d3 = match version {
        KdlVersion::V1 => kdl_ensured_v1(d2),
        KdlVersion::V2 => kdl_ensured_v2(d2),
    };
    lemma_doc_read_unique(d3, usize::MAX as nat, t2, u2);
    lemma_doc_formatted_same(t2, t3, u2, u3, config, 0, false);
    lemma_written_doc_same(d3, t3, u3);
}

/// Formats a parsed document: rescues comments that `kdl`'s autoformatter
/// would drop, autoformats with the configured indentation, brings the
/// document to the target version's syntax, applies the configured trivia
/// rules, prints it, and post-processes the text.
///
/// The text is what `kdl` prints for the document these steps leave
/// (`formats_to`); when blank lines before braces are to be removed, it has
/// none.
pub fn format_kdl(input: kdl::KdlDocument, config: &KdlFmtConfig, version: KdlVersion) -> (r:
    String)
    ensures
        formats_to(input, *config, version, r@),
        config.remove_trailing_blank_lines_in_blocks ==> no_blank_line_before_brace(r@),
{
    let mut doc = input;
    let format_config = config.get_formatter_config();

    // 1. Rescue comments that would be lost by autoformat (v2 inline comments)
    let mut tree = read_doc(&doc);
    let ghost t0 = tree;
    rescue_terminator_comments(&mut tree.nodes);
    let ghost rescued = tree.nodes@;
    rescue_entry_leading_comments(&mut tree.nodes);
    let ghost t1 = tree;
    write_doc(&mut doc, &tree);

    // 2. Basic autoformat according to library defaults
    autoformat(&mut doc, &format_config);

    // 3. Ensure version-specific formatting defaults
    match version {
        KdlVersion::V1 => ensure_v1(&mut doc),
        KdlVersion::V2 => ensure_v2(&mut doc),
    }

    // 4. Apply all custom formatting rules in a single recursive pass
    let mut tree = read_doc(&doc);
    let ghost t2 = tree;
    apply_formatting(&mut tree, config, 0);
    let ghost t3 = tree;
    write_doc(&mut doc, &tree);

    // 5. Final post-processing on the string output
    let output = render(&doc);
    let r = finish_output(output, config);
    proof {
        assert(formatting_steps(input, *config, version, t0, rescued, t1, t2, t3, r@));
        if config.remove_trailing_blank_lines_in_blocks {
            lemma_output_has_no_blank_line_before_brace(r@);
        }
    }
    r
}

/// Text produced by the blank-line removal has no blank line before a `}`
/// line: `without_blank_lines_before_braces` establishes the property it is
/// named for.
pub proof fn lemma_output_has_no_blank_line_before_brace(out: Seq<char>)
    requires
        exists|s: Seq<char>| out == without_blank_lines_before_braces(s),
    ensures
        no_blank_line_before_brace(out),
{
    let s = choose|s: Seq<char>| out == without_blank_lines_before_braces(s);
    let input = split_lines(s);
    let lines = drop_blank_before_braces(input, 0);
    lemma_no_blank_line_before_brace(input, 0);
    if lines.len() > 0 {
        lemma_split_lines_no_newline(s);
        lemma_output_lines_from_input(input, 0);
        assert forall|k: int| 0 <= k < lines.len() implies no_newline(#[trigger] lines[k]) by {
            let j = choose|j: int| 0 <= j < input.len() && lines[k] == input[j];
            assert(no_newline(input[j]));
        }
        lemma_split_join(lines);
    } else {
        assert(split_lines(out) =~= seq![Seq::<char>::empty()]);
    }
}

/// Removing blank lines before closing braces a second time changes
/// nothing.
pub proof fn lemma_blank_line_removal_idempotent(s: Seq<char>)
    ensures
        without_blank_lines_before_braces(without_blank_lines_before_braces(s))
            == without_blank_lines_before_braces(s),
{
    let out = without_blank_lines_before_braces(s);
    let input = split_lines(s);
    let lines = drop_blank_before_braces(input, 0);
    lemma_no_blank_line_before_brace(input, 0);
    if lines.len() > 0 {
        lemma_split_lines_no_newline(s);
        lemma_output_lines_from_input(input, 0);
        assert forall|k: int| 0 <= k < lines.len() implies no_newline(#[trigger] lines[k]) by {
            let j = choose|j: int| 0 <= j < input.len() && lines[k] == input[j];
            assert(no_newline(input[j]));
        }
        lemma_split_join(lines);
        lemma_removal_keeps_clean_lines(lines, 0);
        assert(lines.skip(0) =~= lines);
    } else {
        assert(split_lines(out) =~= seq![Seq::<char>::empty()]);
        let again = split_lines(out);
        assert(next_content(again, 1) == 1);
        assert(!blank_before_brace(again, 0));
        assert(drop_blank_before_braces(again, 1) =~= Seq::<Seq<char>>::empty());
        assert(drop_blank_before_braces(again, 0) =~= again);
        assert(join_lines(again) =~= out);
    }
}

/// Lines with no blank line directly before a `}` line are left as they
/// are.
proof fn lemma_removal_keeps_clean_lines(lines: Seq<Seq<char>>, i: int)
    requires
        0 <= i <= lines.len(),
        forall|k: int|
            i <= k < lines.len() - 1 ==> !(is_blank(#[trigger] lines[k]) && trim(lines[k + 1])
                == close_brace()),
    ensures
        drop_blank_before_braces(lines, i) == lines.skip(i),
    decreases lines.len() - i,
{
    if i == lines.len() {
        assert(lines.skip(i) =~= Seq::<Seq<char>>::empty());
    } else {
        lemma_next_content_bounds(lines, i + 1);
        if blank_before_brace(lines, i) {
            let m = next_content(lines, i + 1);
            assert(is_blank(lines[m - 1]));
            assert(false);
        }
        lemma_removal_keeps_clean_lines(lines, i + 1);
        assert(seq![lines[i]] + lines.skip(i + 1) =~= lines.skip(i));
    }
}

/// Bytes that UTF-8 takes for `c`.
pub open spec fn utf8_width(c: char) -> nat {
    let n = c as u32;
    if n < 0x80 {
        1
    } else if n < 0x800 {
        2
    } else if n < 0x10000 {
        3
    } else {
        4
    }
}

/// Bytes that UTF-8 takes for `s`.
pub open spec fn utf8_bytes(s: Seq<char>) -> nat
    decreases s.len(),
{
    if s.len() == 0 {
        0
    } else {
        utf8_width(s[0]) + utf8_bytes(s.drop_first())
    }
}

/// How many leading characters of `s` fit in its first `b` bytes.
pub open spec fn chars_within(s: Seq<char>, b: int) -> nat
    decreases s.len(),
{
    if s.len() == 0 || utf8_width(s[0]) > b {
        0
    } else {
        1 + chars_within(s.drop_first(), b - utf8_width(s[0]))
    }
}

/// The 1-based line and column just after the text `s`.
pub open spec fn position_after(s: Seq<char>) -> (nat, nat)
    decreases s.len(),
{
    if s.len() == 0 {
        (1, 1)
    } else {
        let (line, column) = position_after(s.drop_last());
        if s.last() == '\n' {
            (line + 1, 1)
        } else {
            (line, column + 1)
        }
    }
}

fn utf8_width_of(c: char) -> (w: usize)
    ensures
        w == utf8_width(c),
{
    let n = c as u32;
    if n < 0x80 {
        1
    } else if n < 0x800 {
        2
    } else if n < 0x10000 {
        3
    } else {
        4
    }
}

/// The 1-based line and column of the byte `offset` in `input` (or of the
/// end of `input`, for an offset past it): lines are counted by line feeds,
/// columns by characters.
pub fn line_and_column(input: &str, offset: usize) -> (r: (usize, usize))
    requires
        input@.len() < usize::MAX,
        offset >= utf8_bytes(input@) || utf8_bytes(input@.take(chars_within(input@, offset as int) as int))
            == offset,
    ensures
        (r.0 as nat, r.1 as nat) == position_after(input@.take(chars_within(input@, offset as int) as int)),
{
    let s = chars_of(input);
    let mut line: usize = 1;
    let mut column: usize = 1;
    let mut rem: usize = offset;
    let mut i: usize = 0;
    assert(s@.skip(0) =~= s@);
    assert(s@.take(0) =~= Seq::<char>::empty());
    while i < s.len() && utf8_width_of(s[i]) <= rem
        invariant
            i <= s@.len(),
            s@ == input@,
            s@.len() < usize::MAX,
            1 <= line <= i + 1,
            1 <= column <= i + 1,
            chars_within(s@, offset as int) == i + chars_within(s@.skip(i as int), rem as int),
            (line as nat, column as nat) == position_after(s@.take(i as int)),
        decreases s.len() - i,
    {
        let c = s[i];
        let w = utf8_width_of(c);
        assert(s@.skip(i as int)[0] == c);
        assert(s@.skip(i as int).drop_first() =~= s@.skip(i + 1));
        assert(s@.take(i + 1).drop_last() =~= s@.take(i as int));
        assert(s@.take(i + 1).last() == c);
        if c == '\n' {
            line = line + 1;
            column = 1;
        } else {
            column = column + 1;
        }
        rem = rem - w;
        i = i + 1;
    }
    proof {
        if i < s.len() {
            assert(s@.skip(i as int)[0] == s@[i as int]);
        }
    }
    (line, column)
}

} // verus!
