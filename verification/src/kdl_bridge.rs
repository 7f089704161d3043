//! The boundary with the `kdl` crate: its types, declared to Verus, names
//! for what its functions return, and the calls into it. Each trusted
//! function makes one call into `kdl` and converts its arguments or its
//! result. The verified walkers `read_doc`, `write_doc` and
//! `read_config_nodes` carry trivia and settings between a document and
//! plain values, and are proved against those names.

use vstd::prelude::*;

use crate::config::{ArgValue, ConfigEntry, ConfigNode};
use crate::format::{chars_within, utf8_bytes};
use crate::tree::{DocTrivia, EntryTrivia, NodeTrivia, TriviaDoc, TriviaNode};

verus! {

/// `kdl::KdlDocument`, opaque to Verus.
#[verifier::external_type_specification]
#[verifier::external_body]
pub struct ExKdlDocument(kdl::KdlDocument);

/// `kdl::KdlNode`, opaque to Verus.
#[verifier::external_type_specification]
#[verifier::external_body]
pub struct ExKdlNode(kdl::KdlNode);

/// `kdl::KdlEntry`, opaque to Verus.
#[verifier::external_type_specification]
#[verifier::external_body]
pub struct ExKdlEntry(kdl::KdlEntry);

/// `kdl::KdlError`, opaque to Verus.
#[verifier::external_type_specification]
#[verifier::external_body]
pub struct ExKdlError(kdl::KdlError);

/// `kdl::FormatConfig`, opaque to Verus.
#[verifier::external_type_specification]
#[verifier::external_body]
pub struct ExFormatConfig<'a>(kdl::FormatConfig<'a>);

/// The indentation of `kdl::FormatConfig::default()`.
/// Trusted: `kdl`'s documentation and source give four spaces.
#[verifier::external_body]
pub(crate) fn default_format_indent() -> (r: String)
    ensures
        r@ == seq![' ', ' ', ' ', ' '],
{
    kdl::FormatConfig::default().indent.to_string()
}

/// Whether `kdl`'s KDL v2 parser accepts the text.
pub uninterp spec fn kdl_v2_accepts(input: Seq<char>) -> bool;

/// Whether `kdl`'s KDL v1 parser accepts the text.
pub uninterp spec fn kdl_v1_accepts(input: Seq<char>) -> bool;

/// The span of the first expression string of `doc`, if any, starts at a
/// character boundary of `input` (or at or past its end).
pub open spec fn expression_offset_ok(input: Seq<char>, doc: kdl::KdlDocument) -> bool {
    match first_expression_in_doc(doc, usize::MAX as nat) {
        Some((n, k)) => {
            let offset = miette_span_offset(kdl_entry_span(kdl_node_entries(n)[k]));
            offset >= utf8_bytes(input) || utf8_bytes(
                input.take(chars_within(input, offset as int) as int),
            ) == offset
        },
        None => true,
    }
}

/// The error `KdlDocument::parse_v2` returns for a refused text.
pub uninterp spec fn kdl_v2_error(input: Seq<char>) -> kdl::KdlError;

/// The error `KdlDocument::parse_v1` returns for a refused text.
pub uninterp spec fn kdl_v1_error(input: Seq<char>) -> kdl::KdlError;

/// `KdlDocument::parse_v2`.
/// Trusted: the parse succeeds exactly on the texts the v2 grammar accepts,
/// and the document or error it returns depends on the text alone. The spans it
/// records are byte ranges of the text, so an entry's span starts at a
/// character boundary.
#[verifier::external_body]
pub(crate) fn parse_v2(input: &str) -> (r: Result<kdl::KdlDocument, kdl::KdlError>)
    ensures
        r is Ok == kdl_v2_accepts(input@),
        r matches Ok(d) ==> d == kdl_parsed_v2(input@),
        r matches Ok(d) ==> expression_offset_ok(input@, d),
        r matches Err(e) ==> e == kdl_v2_error(input@),
{
    kdl::KdlDocument::parse_v2(input)
}

/// `KdlDocument::parse_v1`.
/// Trusted: the parse succeeds exactly on the texts the v1 grammar accepts,
/// and the document or error it returns depends on the text alone. The spans it
/// records are byte ranges of the text, so an entry's span starts at a
/// character boundary.
#[verifier::external_body]
pub(crate) fn parse_v1(input: &str) -> (r: Result<kdl::KdlDocument, kdl::KdlError>)
    ensures
        r is Ok == kdl_v1_accepts(input@),
        r matches Ok(d) ==> d == kdl_parsed_v1(input@),
        r matches Ok(d) ==> expression_offset_ok(input@, d),
        r matches Err(e) ==> e == kdl_v1_error(input@),
{
    kdl::KdlDocument::parse_v1(input)
}

/// `KdlDocument::autoformat_config`: `kdl`'s own normalisation of spacing
/// and trivia, a function of the document and the settings.
#[verifier::external_body]
pub(crate) fn autoformat(doc: &mut kdl::KdlDocument, config: &kdl::FormatConfig)
    ensures
        *final(doc) == kdl_autoformatted(*old(doc), *config),
{
    doc.autoformat_config(config)
}

/// `KdlDocument::ensure_v1`, a function of the document.
#[verifier::external_body]
pub(crate) fn ensure_v1(doc: &mut kdl::KdlDocument)
    ensures
        *final(doc) == kdl_ensured_v1(*old(doc)),
{
    doc.ensure_v1()
}

/// `KdlDocument::ensure_v2`, a function of the document.
#[verifier::external_body]
pub(crate) fn ensure_v2(doc: &mut kdl::KdlDocument)
    ensures
        *final(doc) == kdl_ensured_v2(*old(doc)),
{
    doc.ensure_v2()
}

/// The document printed as KDL text (its `Display`), a function of the
/// document.
#[verifier::external_body]
pub(crate) fn render(doc: &kdl::KdlDocument) -> (r: String)
    ensures
        r@ == kdl_printed(*doc),
{
    doc.to_string()
}

/// The text of a parse error (its `Display`).
pub uninterp spec fn kdl_error_text(e: kdl::KdlError) -> Seq<char>;

/// The text of a parse error (its `Display`), a function of the error.
#[verifier::external_body]
pub(crate) fn error_text(e: &kdl::KdlError) -> (r: String)
    ensures
        r@ == kdl_error_text(*e),
{
    e.to_string()
}

/// The trivia of a document as plain text: leading and trailing, when the
/// document records formatting.
pub open spec fn doc_format_view(f: Option<DocTrivia>) -> Option<(Seq<char>, Seq<char>)> {
    match f {
        Some(t) => Some((t.leading@, t.trailing@)),
        None => None,
    }
}

/// The trivia of a node as plain text: leading, before the terminator, the
/// terminator, and trailing.
pub open spec fn node_format_view(f: Option<NodeTrivia>) -> Option<
    (Seq<char>, Seq<char>, Seq<char>, Seq<char>),
> {
    match f {
        Some(t) => Some((t.leading@, t.before_terminator@, t.terminator@, t.trailing@)),
        None => None,
    }
}

/// The trivia of an entry as plain text, with its keep-formatting flag.
pub open spec fn entry_format_view(f: Option<EntryTrivia>) -> Option<(Seq<char>, Seq<char>, bool)> {
    match f {
        Some(t) => Some((t.leading@, t.trailing@, t.keep)),
        None => None,
    }
}

/// What `KdlDocument::parse_v2` returns for an accepted text.
pub uninterp spec fn kdl_parsed_v2(input: Seq<char>) -> kdl::KdlDocument;

/// What `KdlDocument::parse_v1` returns for an accepted text.
pub uninterp spec fn kdl_parsed_v1(input: Seq<char>) -> kdl::KdlDocument;

/// What `KdlDocument::autoformat_config` makes of a document.
pub uninterp spec fn kdl_autoformatted(
    doc: kdl::KdlDocument,
    config: kdl::FormatConfig<'static>,
) -> kdl::KdlDocument;

/// What `KdlDocument::ensure_v1` makes of a document.
pub uninterp spec fn kdl_ensured_v1(doc: kdl::KdlDocument) -> kdl::KdlDocument;

/// What `KdlDocument::ensure_v2` makes of a document.
pub uninterp spec fn kdl_ensured_v2(doc: kdl::KdlDocument) -> kdl::KdlDocument;

/// The text of a document (its `Display`).
pub uninterp spec fn kdl_printed(doc: kdl::KdlDocument) -> Seq<char>;

/// `KdlDocument::format`: leading and trailing trivia, if recorded.
pub uninterp spec fn kdl_doc_format(doc: kdl::KdlDocument) -> Option<(Seq<char>, Seq<char>)>;

/// `KdlDocument::nodes`.
pub uninterp spec fn kdl_doc_nodes(doc: kdl::KdlDocument) -> Seq<kdl::KdlNode>;

/// A document with the leading and trailing trivia written through
/// `KdlDocument::format_mut` (unchanged when it records no formatting).
pub uninterp spec fn kdl_doc_with_format(
    doc: kdl::KdlDocument,
    leading: Seq<char>,
    trailing: Seq<char>,
) -> kdl::KdlDocument;

/// A document whose node list (`KdlDocument::nodes_mut`) is replaced.
pub uninterp spec fn kdl_doc_with_nodes(
    doc: kdl::KdlDocument,
    nodes: Seq<kdl::KdlNode>,
) -> kdl::KdlDocument;

/// The text of a node's name (`KdlNode::name().value()`).
pub uninterp spec fn kdl_node_name(node: kdl::KdlNode) -> Seq<char>;

/// `KdlNode::format`: leading, before-terminator, terminator and trailing
/// trivia, if recorded.
pub uninterp spec fn kdl_node_format(node: kdl::KdlNode) -> Option<
    (Seq<char>, Seq<char>, Seq<char>, Seq<char>),
>;

/// `KdlNode::entries`.
pub uninterp spec fn kdl_node_entries(node: kdl::KdlNode) -> Seq<kdl::KdlEntry>;

/// `KdlNode::children`.
pub uninterp spec fn kdl_node_children(node: kdl::KdlNode) -> Option<kdl::KdlDocument>;

/// `KdlNode::get(0)`, the node's first argument, as a plain value.
pub uninterp spec fn kdl_node_first_arg(node: kdl::KdlNode) -> ArgValue;

/// A node with its trivia written through `KdlNode::format_mut`
/// (unchanged when it records no formatting).
pub uninterp spec fn kdl_node_with_format(
    node: kdl::KdlNode,
    leading: Seq<char>,
    before_terminator: Seq<char>,
    terminator: Seq<char>,
    trailing: Seq<char>,
) -> kdl::KdlNode;

/// A node whose entry list (`KdlNode::entries_mut`) is replaced.
pub uninterp spec fn kdl_node_with_entries(
    node: kdl::KdlNode,
    entries: Seq<kdl::KdlEntry>,
) -> kdl::KdlNode;

/// A node whose children (`KdlNode::children_mut`) are replaced.
pub uninterp spec fn kdl_node_with_children(
    node: kdl::KdlNode,
    children: Option<kdl::KdlDocument>,
) -> kdl::KdlNode;

/// `KdlEntry::format`: leading and trailing trivia and the keep flag, if
/// recorded.
pub uninterp spec fn kdl_entry_format(entry: kdl::KdlEntry) -> Option<(Seq<char>, Seq<char>, bool)>;

/// An entry with its trivia written through `KdlEntry::format_mut`
/// (unchanged when it records no formatting).
pub uninterp spec fn kdl_entry_with_format(
    entry: kdl::KdlEntry,
    leading: Seq<char>,
    trailing: Seq<char>,
) -> kdl::KdlEntry;

/// What `KdlEntry::keep_format` makes of an entry.
pub uninterp spec fn kdl_entry_kept(entry: kdl::KdlEntry) -> kdl::KdlEntry;


/// How an entry's value was written (`KdlEntryFormat::value_repr`), when the
/// entry records formatting.
pub uninterp spec fn kdl_entry_value_repr(entry: kdl::KdlEntry) -> Option<Seq<char>>;

/// The text of an entry's property name (`KdlEntry::name`), for a property.
pub uninterp spec fn kdl_entry_name(entry: kdl::KdlEntry) -> Option<Seq<char>>;

/// `KdlEntry::span`.
pub uninterp spec fn kdl_entry_span(entry: kdl::KdlEntry) -> miette::SourceSpan;

/// `SourceSpan::offset`.
pub uninterp spec fn miette_span_offset(span: miette::SourceSpan) -> usize;

/// An expression string: a value written between backticks. The `kdl`
/// crate reads such a value as an identifier string that starts with a
/// backtick.
pub open spec fn is_expression_string(entry: kdl::KdlEntry) -> bool {
    kdl_entry_value_repr(entry) matches Some(r) && r.len() > 0 && r[0] == '`'
}

/// The first expression string among `entries`, from `k` on.
pub open spec fn first_expression_entry(entries: Seq<kdl::KdlEntry>, k: int) -> Option<int>
    decreases entries.len() - k,
{
    if k < 0 || k >= entries.len() {
        None
    } else if is_expression_string(entries[k]) {
        Some(k)
    } else {
        first_expression_entry(entries, k + 1)
    }
}

/// The first expression string of a document, depth first (a node's entries,
/// then its children, then the next node), down to `levels` levels of
/// children: the node and the entry's index.
pub open spec fn first_expression_in_doc(doc: kdl::KdlDocument, levels: nat) -> Option<
    (kdl::KdlNode, int),
>
    decreases levels, 1int, 0int,
{
    first_expression_in_nodes(kdl_doc_nodes(doc), 0, levels)
}

/// The first expression string of `nodes` from the `i`-th on, depth first.
pub open spec fn first_expression_in_nodes(
    nodes: Seq<kdl::KdlNode>,
    i: int,
    levels: nat,
) -> Option<(kdl::KdlNode, int)>
    decreases levels, 0int, nodes.len() - i,
{
    if i < 0 || i >= nodes.len() {
        None
    } else {
        match first_expression_entry(kdl_node_entries(nodes[i]), 0) {
            Some(k) => Some((nodes[i], k)),
            None => {
                let inner = match kdl_node_children(nodes[i]) {
                    Some(c) => if levels > 0 {
                        first_expression_in_doc(c, (levels - 1) as nat)
                    } else {
                        None
                    },
                    None => None,
                };
                match inner {
                    Some(x) => Some(x),
                    None => first_expression_in_nodes(nodes, i + 1, levels),
                }
            },
        }
    }
}

/// `KdlEntryFormat::value_repr` of an entry, as characters, when the entry
/// records formatting.
#[verifier::external_body]
pub(crate) fn entry_value_repr(entry: &kdl::KdlEntry) -> (r: Option<Vec<char>>)
    ensures
        match r {
            Some(v) => kdl_entry_value_repr(*entry) == Some(v@),
            None => kdl_entry_value_repr(*entry) is None,
        },
{
    match entry.format() {
        Some(f) => Some(f.value_repr.chars().collect()),
        None => None,
    }
}

/// `KdlEntry::name`, as characters, for a property.
#[verifier::external_body]
pub(crate) fn entry_name(entry: &kdl::KdlEntry) -> (r: Option<Vec<char>>)
    ensures
        match r {
            Some(v) => kdl_entry_name(*entry) == Some(v@),
            None => kdl_entry_name(*entry) is None,
        },
{
    match entry.name() {
        Some(n) => Some(n.value().chars().collect()),
        None => None,
    }
}

/// `KdlEntry::span`.
#[verifier::external_body]
pub(crate) fn entry_span(entry: &kdl::KdlEntry) -> (r: miette::SourceSpan)
    ensures
        r == kdl_entry_span(*entry),
{
    entry.span()
}

/// `SourceSpan::offset`.
#[verifier::external_body]
pub(crate) fn span_offset(span: &miette::SourceSpan) -> (r: usize)
    ensures
        r == miette_span_offset(*span),
{
    span.offset()
}

/// Where an expression string was found: the entry's span, the node's name,
/// the entry's index among the node's entries, and its property name.
pub struct ExpressionSite {
    pub span: miette::SourceSpan,
    pub node_name: Vec<char>,
    pub index: usize,
    pub property: Option<Vec<char>>,
}

/// `site` describes the `k`-th entry of `node`.
pub open spec fn site_of(site: ExpressionSite, node: kdl::KdlNode, k: int) -> bool {
    let entry = kdl_node_entries(node)[k];
    &&& site.node_name@ == kdl_node_name(node)
    &&& site.index == k
    &&& site.span == kdl_entry_span(entry)
    &&& match site.property {
        Some(p) => kdl_entry_name(entry) == Some(p@),
        None => kdl_entry_name(entry) is None,
    }
}

/// Whether the entry's value was written between backticks.
fn entry_is_expression_string(entry: &kdl::KdlEntry) -> (r: bool)
    ensures
        r == is_expression_string(*entry),
{
    match entry_value_repr(entry) {
        Some(v) => v.len() > 0 && v[0] == '`',
        None => false,
    }
}

/// The first expression string of `doc`, depth first, down to `budget`
/// levels of children.
pub(crate) fn find_expression_string(doc: &kdl::KdlDocument, budget: usize) -> (r: Option<
    ExpressionSite,
>)
    ensures
        match first_expression_in_doc(*doc, budget as nat) {
            Some((n, k)) => r matches Some(site) && site_of(site, n, k),
            None => r is None,
        },
        r matches Some(site) ==> site.index < usize::MAX,
    decreases budget,
{
    let nodes = doc_nodes(doc);
    let mut i: usize = 0;
    while i < nodes.len()
        invariant
            nodes@ == kdl_doc_nodes(*doc),
            i <= nodes@.len(),
            first_expression_in_doc(*doc, budget as nat) == first_expression_in_nodes(
                nodes@,
                i as int,
                budget as nat,
            ),
        decreases nodes.len() - i,
    {
        let node = &nodes[i];
        let entries = node_entries(node);
        let mut k: usize = 0;
        while k < entries.len()
            invariant
                i < nodes@.len(),
                *node == nodes@[i as int],
                first_expression_in_doc(*doc, budget as nat) == first_expression_in_nodes(
                    nodes@,
                    i as int,
                    budget as nat,
                ),
                entries@ == kdl_node_entries(*node),
                k <= entries@.len(),
                first_expression_entry(entries@, 0) == first_expression_entry(entries@, k as int),
            decreases entries.len() - k,
        {
            if entry_is_expression_string(&entries[k]) {
                let site = ExpressionSite {
                    span: entry_span(&entries[k]),
                    node_name: node_name(node),
                    index: k,
                    property: entry_name(&entries[k]),
                };
                assert(first_expression_entry(entries@, k as int) == Some(k as int));
                assert(first_expression_in_nodes(nodes@, i as int, budget as nat) == Some(
                    (nodes@[i as int], k as int),
                ));
                return Some(site);
            }
            k = k + 1;
        }
        assert(first_expression_entry(entries@, k as int) is None);
        if budget > 0 {
            if let Some(c) = node_children(node) {
                if let Some(site) = find_expression_string(c, budget - 1) {
                    return Some(site);
                }
            }
        }
        i = i + 1;
    }
    None
}

/// The node of `doc` reached by `path`: the `path[0]`-th node, then, in
/// its children, the `path[1]`-th, and so on.
pub open spec fn kdl_node_at(doc: kdl::KdlDocument, path: Seq<int>) -> Option<kdl::KdlNode>
    decreases path.len(),
{
    let nodes = kdl_doc_nodes(doc);
    if path.len() == 0 || !(0 <= path[0] < nodes.len()) {
        None
    } else if path.len() == 1 {
        Some(nodes[path[0]])
    } else {
        match kdl_node_children(nodes[path[0]]) {
            Some(c) => kdl_node_at(c, path.drop_first()),
            None => None,
        }
    }
}

proof fn lemma_first_expression_entry_found(entries: Seq<kdl::KdlEntry>, j: int, k: int)
    requires
        0 <= j <= k < entries.len(),
        is_expression_string(entries[k]),
    ensures
        first_expression_entry(entries, j) is Some,
    decreases k - j,
{
    if !is_expression_string(entries[j]) {
        lemma_first_expression_entry_found(entries, j + 1, k);
    }
}

proof fn lemma_expression_in_nodes_found(
    nodes: Seq<kdl::KdlNode>,
    i: int,
    levels: nat,
    path: Seq<int>,
    k: int,
)
    requires
        0 <= i <= path[0],
        1 <= path.len() <= levels + 1,
        path[0] < nodes.len(),
        kdl_node_at_nodes(nodes, path) matches Some(n) && 0 <= k < kdl_node_entries(n).len()
            && is_expression_string(kdl_node_entries(n)[k]),
    ensures
        first_expression_in_nodes(nodes, i, levels) is Some,
    decreases levels, 0int, nodes.len() - i,
{
    match first_expression_entry(kdl_node_entries(nodes[i]), 0) {
        Some(_) => {},
        None => {
            let inner = match kdl_node_children(nodes[i]) {
                Some(c) => if levels > 0 {
                    first_expression_in_doc(c, (levels - 1) as nat)
                } else {
                    None
                },
                None => None,
            };
            if inner is None {
                if i < path[0] {
                    lemma_expression_in_nodes_found(nodes, i + 1, levels, path, k);
                } else if path.len() == 1 {
                    lemma_first_expression_entry_found(kdl_node_entries(nodes[i]), 0, k);
                } else {
                    let c = kdl_node_children(nodes[i])->0;
                    lemma_expression_in_doc_found(c, (levels - 1) as nat, path.drop_first(), k);
                }
            }
        },
    }
}

/// `kdl_node_at` over a node list instead of a document.
pub open spec fn kdl_node_at_nodes(nodes: Seq<kdl::KdlNode>, path: Seq<int>) -> Option<
    kdl::KdlNode,
> {
    if path.len() == 0 || !(0 <= path[0] < nodes.len()) {
        None
    } else if path.len() == 1 {
        Some(nodes[path[0]])
    } else {
        match kdl_node_children(nodes[path[0]]) {
            Some(c) => kdl_node_at(c, path.drop_first()),
            None => None,
        }
    }
}

/// Expression strings are found at every depth: when some node of `doc`,
/// reached through at most `levels` levels of children, holds an entry
/// whose value is an expression string, the search finds one. With the
/// budget `parse_kdl` uses, a document holding an expression string at any
/// depth is refused when expression strings are not allowed.
pub proof fn lemma_expression_in_doc_found(
    doc: kdl::KdlDocument,
    levels: nat,
    path: Seq<int>,
    k: int,
)
    requires
        1 <= path.len() <= levels + 1,
        kdl_node_at(doc, path) matches Some(n) && 0 <= k < kdl_node_entries(n).len()
            && is_expression_string(kdl_node_entries(n)[k]),
    ensures
        first_expression_in_doc(doc, levels) is Some,
    decreases levels, 1int, 0int,
{
    assert(kdl_node_at_nodes(kdl_doc_nodes(doc), path) == kdl_node_at(doc, path));
    lemma_expression_in_nodes_found(kdl_doc_nodes(doc), 0, levels, path, k);
}

/// `KdlDocument::format`, as plain trivia.
#[verifier::external_body]
pub(crate) fn doc_trivia(doc: &kdl::KdlDocument) -> (r: Option<DocTrivia>)
    ensures
        doc_format_view(r) == kdl_doc_format(*doc),
{
    match doc.format() {
        Some(f) => Some(
            DocTrivia { leading: f.leading.chars().collect(), trailing: f.trailing.chars().collect() },
        ),
        None => None,
    }
}

/// `KdlDocument::nodes`.
#[verifier::external_body]
pub(crate) fn doc_nodes(doc: &kdl::KdlDocument) -> (r: &[kdl::KdlNode])
    ensures
        r@ == kdl_doc_nodes(*doc),
{
    doc.nodes()
}

/// `KdlNode::name`, as its length in bytes (`str::len`: the UTF-8 length).
#[verifier::external_body]
pub(crate) fn node_name_len(node: &kdl::KdlNode) -> (r: usize)
    ensures
        r == utf8_bytes(kdl_node_name(*node)),
{
    node.name().value().len()
}

/// `KdlNode::format`, as plain trivia.
#[verifier::external_body]
pub(crate) fn node_trivia(node: &kdl::KdlNode) -> (r: Option<NodeTrivia>)
    ensures
        node_format_view(r) == kdl_node_format(*node),
{
    match node.format() {
        Some(f) => Some(NodeTrivia {
            leading: f.leading.chars().collect(),
            before_terminator: f.before_terminator.chars().collect(),
            terminator: f.terminator.chars().collect(),
            trailing: f.trailing.chars().collect(),
        }),
        None => None,
    }
}

/// `KdlNode::entries`.
#[verifier::external_body]
pub(crate) fn node_entries(node: &kdl::KdlNode) -> (r: &[kdl::KdlEntry])
    ensures
        r@ == kdl_node_entries(*node),
{
    node.entries()
}

/// `KdlEntry::format`, as plain trivia.
#[verifier::external_body]
pub(crate) fn entry_trivia(entry: &kdl::KdlEntry) -> (r: Option<EntryTrivia>)
    ensures
        entry_format_view(r) == kdl_entry_format(*entry),
{
    match entry.format() {
        Some(f) => Some(EntryTrivia {
            leading: f.leading.chars().collect(),
            trailing: f.trailing.chars().collect(),
            keep: f.autoformat_keep,
        }),
        None => None,
    }
}

/// `KdlNode::children`.
#[verifier::external_body]
pub(crate) fn node_children(node: &kdl::KdlNode) -> (r: Option<&kdl::KdlDocument>)
    ensures
        match r {
            Some(c) => kdl_node_children(*node) == Some(*c),
            None => kdl_node_children(*node) is None,
        },
{
    node.children()
}

/// Writes the leading and trailing trivia through `KdlDocument::format_mut`,
/// when the document has formatting.
#[verifier::external_body]
pub(crate) fn set_doc_trivia(doc: &mut kdl::KdlDocument, t: &DocTrivia)
    ensures
        *final(doc) == kdl_doc_with_format(*old(doc), t.leading@, t.trailing@),
{
    if let Some(f) = doc.format_mut() {
        f.leading = t.leading.iter().collect();
        f.trailing = t.trailing.iter().collect();
    }
}

/// Takes the node list out of `KdlDocument::nodes_mut`, leaving it empty.
#[verifier::external_body]
pub(crate) fn take_nodes(doc: &mut kdl::KdlDocument) -> (r: Vec<kdl::KdlNode>)
    ensures
        r@ == kdl_doc_nodes(*old(doc)),
        *final(doc) == kdl_doc_with_nodes(*old(doc), Seq::empty()),
{
    std::mem::take(doc.nodes_mut())
}

/// Puts a node list into `KdlDocument::nodes_mut`.
#[verifier::external_body]
pub(crate) fn put_nodes(doc: &mut kdl::KdlDocument, nodes: Vec<kdl::KdlNode>)
    ensures
        *final(doc) == kdl_doc_with_nodes(*old(doc), nodes@),
{
    *doc.nodes_mut() = nodes;
}

/// Writes the leading, before-terminator, terminator and trailing trivia
/// through `KdlNode::format_mut`, when the node has formatting.
#[verifier::external_body]
pub(crate) fn set_node_trivia(node: &mut kdl::KdlNode, t: &NodeTrivia)
    ensures
        *final(node) == kdl_node_with_format(
            *old(node),
            t.leading@,
            t.before_terminator@,
            t.terminator@,
            t.trailing@,
        ),
{
    if let Some(f) = node.format_mut() {
        f.leading = t.leading.iter().collect();
        f.before_terminator = t.before_terminator.iter().collect();
        f.terminator = t.terminator.iter().collect();
        f.trailing = t.trailing.iter().collect();
    }
}

/// Takes the entry list out of `KdlNode::entries_mut`, leaving it empty.
#[verifier::external_body]
pub(crate) fn take_entries(node: &mut kdl::KdlNode) -> (r: Vec<kdl::KdlEntry>)
    ensures
        r@ == kdl_node_entries(*old(node)),
        *final(node) == kdl_node_with_entries(*old(node), Seq::empty()),
{
    std::mem::take(node.entries_mut())
}

/// Puts an entry list into `KdlNode::entries_mut`.
#[verifier::external_body]
pub(crate) fn put_entries(node: &mut kdl::KdlNode, entries: Vec<kdl::KdlEntry>)
    ensures
        *final(node) == kdl_node_with_entries(*old(node), entries@),
{
    *node.entries_mut() = entries;
}

/// Writes the leading and trailing trivia through `KdlEntry::format_mut`,
/// when the entry has formatting.
#[verifier::external_body]
pub(crate) fn set_entry_trivia(entry: &mut kdl::KdlEntry, t: &EntryTrivia)
    ensures
        *final(entry) == kdl_entry_with_format(*old(entry), t.leading@, t.trailing@),
{
    if let Some(f) = entry.format_mut() {
        f.leading = t.leading.iter().collect();
        f.trailing = t.trailing.iter().collect();
    }
}

/// `KdlEntry::keep_format`.
#[verifier::external_body]
pub(crate) fn keep_entry_format(entry: &mut kdl::KdlEntry)
    ensures
        *final(entry) == kdl_entry_kept(*old(entry)),
{
    entry.keep_format()
}

/// Takes the children out of `KdlNode::children_mut`, leaving none.
#[verifier::external_body]
pub(crate) fn take_children(node: &mut kdl::KdlNode) -> (r: Option<kdl::KdlDocument>)
    ensures
        r == kdl_node_children(*old(node)),
        *final(node) == kdl_node_with_children(*old(node), None),
{
    node.children_mut().take()
}

/// `KdlNode::set_children`: the children become `Some(children)`.
#[verifier::external_body]
pub(crate) fn set_children(node: &mut kdl::KdlNode, children: kdl::KdlDocument)
    ensures
        *final(node) == kdl_node_with_children(*old(node), Some(children)),
{
    node.set_children(children)
}

/// Whether `t` holds the trivia of `doc` as `kdl` reports it, read down to
/// `levels` levels of children (deeper blocks are left unread).
pub open spec fn doc_read(doc: kdl::KdlDocument, levels: nat, t: TriviaDoc) -> bool
    decreases levels, 1nat,
{
    let nodes = kdl_doc_nodes(doc);
    &&& doc_format_view(t.format) == kdl_doc_format(doc)
    &&& t.nodes@.len() == nodes.len()
    &&& forall|i: int| 0 <= i < nodes.len() ==> node_read(nodes[i], levels, #[trigger] t.nodes@[i])
}

/// Whether `t` holds the trivia of `node`, read down to `levels` levels of
/// children.
pub open spec fn node_read(node: kdl::KdlNode, levels: nat, t: TriviaNode) -> bool
    decreases levels, 0nat,
{
    let entries = kdl_node_entries(node);
    &&& t.name_len == utf8_bytes(kdl_node_name(node))
    &&& node_format_view(t.format) == kdl_node_format(node)
    &&& t.entries@.len() == entries.len()
    &&& (forall|k: int|
        0 <= k < entries.len() ==> entry_format_view(#[trigger] t.entries@[k]) == kdl_entry_format(
            entries[k],
        ))
    &&& match kdl_node_children(node) {
        Some(c) => if levels > 0 {
            t.children matches Some(tc) && doc_read(c, (levels - 1) as nat, tc)
        } else {
            t.children is None
        },
        None => t.children is None,
    }
}

/// Reads the trivia of `doc` and of its nodes, down to `budget` levels of
/// children (a bound that no document held in memory reaches); deeper
/// blocks are not read.
fn read_doc_within(doc: &kdl::KdlDocument, budget: usize) -> (r: TriviaDoc)
    ensures
        doc_read(*doc, budget as nat, r),
    decreases budget,
{
    let format = doc_trivia(doc);
    let nodes = doc_nodes(doc);
    let mut out: Vec<TriviaNode> = Vec::new();
    let mut i: usize = 0;
    while i < nodes.len()
        invariant
            nodes@ == kdl_doc_nodes(*doc),
            out@.len() == i,
            i <= nodes@.len(),
            forall|j: int| 0 <= j < i ==> node_read(nodes@[j], budget as nat, #[trigger] out@[j]),
        decreases nodes.len() - i,
    {
        let node = &nodes[i];
        let entries = node_entries(node);
        let mut ets: Vec<Option<EntryTrivia>> = Vec::new();
        let mut k: usize = 0;
        while k < entries.len()
            invariant
                entries@ == kdl_node_entries(*node),
                ets@.len() == k,
                k <= entries@.len(),
                forall|m: int|
                    0 <= m < k ==> entry_format_view(#[trigger] ets@[m]) == kdl_entry_format(
                        entries@[m],
                    ),
            decreases entries.len() - k,
        {
            ets.push(entry_trivia(&entries[k]));
            k = k + 1;
        }
        let children = match node_children(node) {
            Some(c) => if budget > 0 {
                Some(read_doc_within(c, budget - 1))
            } else {
                None
            },
            None => None,
        };
        let tn = TriviaNode {
            name_len: node_name_len(node),
            format: node_trivia(node),
            entries: ets,
            children,
        };
        assert(node_read(nodes@[i as int], budget as nat, tn));
        out.push(tn);
        i = i + 1;
    }
    TriviaDoc { format, nodes: out }
}

/// The trivia of a parsed document, as plain values.
pub(crate) fn read_doc(doc: &kdl::KdlDocument) -> (r: TriviaDoc)
    ensures
        doc_read(*doc, usize::MAX as nat, r),
{
    read_doc_within(doc, usize::MAX)
}

/// An entry with the trivia of `t` written into it, and its formatting kept
/// when `t` says so.
pub open spec fn written_entry(e: kdl::KdlEntry, t: Option<EntryTrivia>) -> kdl::KdlEntry {
    match t {
        Some(et) => {
            let e1 = kdl_entry_with_format(e, et.leading@, et.trailing@);
            if et.keep {
                kdl_entry_kept(e1)
            } else {
                e1
            }
        },
        None => e,
    }
}

/// `items` with the first `n` of them (as far as there are) rewritten by
/// `f`, the rest as they are.
pub open spec fn rewrite_prefix<A>(items: Seq<A>, n: int, f: spec_fn(int, A) -> A) -> Seq<A> {
    Seq::new(items.len(), |i: int| if i < n { f(i, items[i]) } else { items[i] })
}

/// A document with the trivia of `t` written into it: its own trivia, and
/// then, node by node as far as both go, the trivia of its nodes.
pub open spec fn written_doc(doc: kdl::KdlDocument, t: TriviaDoc) -> kdl::KdlDocument
    decreases t,
{
    let d1 = match t.format {
        Some(f) => kdl_doc_with_format(doc, f.leading@, f.trailing@),
        None => doc,
    };
    let nodes = kdl_doc_nodes(d1);
    let d2 = kdl_doc_with_nodes(d1, Seq::empty());
    kdl_doc_with_nodes(d2, written_nodes(nodes, t.nodes@))
}

/// `nodes`, with the trivia of `ts` written into those that have a
/// counterpart there.
pub open spec fn written_nodes(nodes: Seq<kdl::KdlNode>, ts: Seq<TriviaNode>) -> Seq<kdl::KdlNode>
    decreases ts,
{
    if ts.len() == 0 {
        nodes
    } else {
        let k = ts.len() - 1;
        let before = written_nodes(nodes, ts.subrange(0, k));
        if k < nodes.len() {
            before.update(k, written_node(nodes[k], ts[k]))
        } else {
            before
        }
    }
}

/// A node with the trivia of `t` written into it: its own trivia, its
/// entries' trivia, and that of its children.
pub open spec fn written_node(node: kdl::KdlNode, t: TriviaNode) -> kdl::KdlNode
    decreases t,
{
    let n1 = match t.format {
        Some(f) => kdl_node_with_format(
            node,
            f.leading@,
            f.before_terminator@,
            f.terminator@,
            f.trailing@,
        ),
        None => node,
    };
    let entries = kdl_node_entries(n1);
    let n2 = kdl_node_with_entries(n1, Seq::empty());
    let n3 = kdl_node_with_entries(
        n2,
        rewrite_prefix(
            entries,
            t.entries@.len() as int,
            |k: int, e: kdl::KdlEntry| written_entry(e, t.entries@[k]),
        ),
    );
    match t.children {
        Some(tc) => {
            let n4 = kdl_node_with_children(n3, None);
            match kdl_node_children(n3) {
                Some(c) => kdl_node_with_children(n4, Some(written_doc(c, tc))),
                None => n4,
            }
        },
        None => n3,
    }
}

pub(crate) proof fn lemma_written_nodes(nodes: Seq<kdl::KdlNode>, ts: Seq<TriviaNode>)
    ensures
        written_nodes(nodes, ts).len() == nodes.len(),
        forall|i: int|
            0 <= i < nodes.len() ==> #[trigger] written_nodes(nodes, ts)[i] == if i < ts.len() {
                written_node(nodes[i], ts[i])
            } else {
                nodes[i]
            },
    decreases ts.len(),
{
    if ts.len() > 0 {
        let k = ts.len() - 1;
        lemma_written_nodes(nodes, ts.subrange(0, k));
    }
}

/// Writes the trivia of `t` into an entry.
fn write_entry(entry: &mut kdl::KdlEntry, t: &Option<EntryTrivia>)
    ensures
        *final(entry) == written_entry(*old(entry), *t),
{
    if let Some(et) = t {
        set_entry_trivia(entry, et);
        if et.keep {
            keep_entry_format(entry);
        }
    }
}

/// Writes the trivia of `t` into a node, its entries and its children.
fn write_node(node: &mut kdl::KdlNode, t: &TriviaNode)
    ensures
        *final(node) == written_node(*old(node), *t),
    decreases t,
{
    if let Some(f) = &t.format {
        set_node_trivia(node, f);
    }
    let ghost n1 = *node;
    let mut entries = take_entries(node);
    let ghost es = entries@;
    let mut out: Vec<kdl::KdlEntry> = Vec::new();
    let mut k: usize = 0;
    let n = entries.len();
    while k < n
        invariant
            n == es.len(),
            k <= n,
            entries@ == es.skip(k as int),
            out@.len() == k,
            forall|m: int|
                0 <= m < k ==> #[trigger] out@[m] == if m < t.entries@.len() {
                    written_entry(es[m], t.entries@[m])
                } else {
                    es[m]
                },
        decreases n - k,
    {
        let mut e = entries.remove(0);
        assert(e == es[k as int]);
        if k < t.entries.len() {
            write_entry(&mut e, &t.entries[k]);
        }
        out.push(e);
        assert(es.skip(k as int).remove(0) =~= es.skip(k + 1));
        k = k + 1;
    }
    assert(out@ =~= rewrite_prefix(
        es,
        t.entries@.len() as int,
        |k: int, e: kdl::KdlEntry| written_entry(e, t.entries@[k]),
    ));
    put_entries(node, out);
    if let Some(tc) = &t.children {
        let children = take_children(node);
        if let Some(c) = children {
            let mut c = c;
            write_doc(&mut c, tc);
            set_children(node, c);
        }
    }
}

/// Writes the trivia of `t` back into `doc`, node by node.
pub(crate) fn write_doc(doc: &mut kdl::KdlDocument, t: &TriviaDoc)
    ensures
        *final(doc) == written_doc(*old(doc), *t),
    decreases t,
{
    if let Some(f) = &t.format {
        set_doc_trivia(doc, f);
    }
    let mut nodes = take_nodes(doc);
    let ghost ns = nodes@;
    let mut out: Vec<kdl::KdlNode> = Vec::new();
    let mut i: usize = 0;
    let n = nodes.len();
    while i < n
        invariant
            n == ns.len(),
            i <= n,
            nodes@ == ns.skip(i as int),
            out@.len() == i,
            forall|m: int|
                0 <= m < i ==> #[trigger] out@[m] == if m < t.nodes@.len() {
                    written_node(ns[m], t.nodes@[m])
                } else {
                    ns[m]
                },
        decreases n - i,
    {
        let mut node = nodes.remove(0);
        assert(node == ns[i as int]);
        if i < t.nodes.len() {
            assert(decreases_to!(t => t.nodes));
            assert(decreases_to!(t.nodes => t.nodes@));
            assert(decreases_to!(t.nodes@ => t.nodes@[i as int]));
            write_node(&mut node, &t.nodes[i]);
        }
        out.push(node);
        assert(ns.skip(i as int).remove(0) =~= ns.skip(i + 1));
        i = i + 1;
    }
    proof {
        lemma_written_nodes(ns, t.nodes@);
        assert(out@ =~= written_nodes(ns, t.nodes@));
    }
    put_nodes(doc, out);
}

/// `KdlNode::name`, as characters.
#[verifier::external_body]
pub(crate) fn node_name(node: &kdl::KdlNode) -> (r: Vec<char>)
    ensures
        r@ == kdl_node_name(*node),
{
    node.name().value().chars().collect()
}

/// `KdlNode::get(0)`: the node's first argument, as the kind of value it is
/// (with integer and boolean payloads).
#[verifier::external_body]
pub(crate) fn node_first_arg(node: &kdl::KdlNode) -> (r: ArgValue)
    ensures
        r == kdl_node_first_arg(*node),
{
    match node.get(0usize) {
        None => ArgValue::Absent,
        Some(kdl::KdlValue::String(_)) => ArgValue::Str,
        Some(kdl::KdlValue::Integer(n)) => ArgValue::Integer(*n),
        Some(kdl::KdlValue::Float(_)) => ArgValue::Float,
        Some(kdl::KdlValue::Bool(b)) => ArgValue::Bool(*b),
        Some(kdl::KdlValue::Null) => ArgValue::Null,
    }
}

/// Whether `out` holds the names and first arguments of the nodes of
/// `doc`, with those of the nodes in their blocks.
pub open spec fn config_nodes_read(doc: kdl::KdlDocument, out: Seq<ConfigNode>) -> bool {
    let nodes = kdl_doc_nodes(doc);
    &&& out.len() == nodes.len()
    &&& forall|i: int| 0 <= i < nodes.len() ==> config_node_read(nodes[i], #[trigger] out[i])
}

/// Whether `c` holds the name and first argument of `node`, with those of
/// the nodes in its block.
pub open spec fn config_node_read(node: kdl::KdlNode, c: ConfigNode) -> bool {
    &&& c.name@ == kdl_node_name(node)
    &&& c.arg == kdl_node_first_arg(node)
    &&& match kdl_node_children(node) {
        Some(d) => c.children matches Some(es) && {
            let ns = kdl_doc_nodes(d);
            &&& es@.len() == ns.len()
            &&& forall|k: int|
                0 <= k < ns.len() ==> (#[trigger] es@[k]).name@ == kdl_node_name(ns[k])
                    && es@[k].arg == kdl_node_first_arg(ns[k])
        },
        None => c.children is None,
    }
}

/// The names and first arguments of the top-level nodes of a configuration
/// document, with those of the nodes in their blocks.
pub(crate) fn read_config_nodes(doc: &kdl::KdlDocument) -> (r: Vec<ConfigNode>)
    ensures
        config_nodes_read(*doc, r@),
{
    let nodes = doc_nodes(doc);
    let mut out: Vec<ConfigNode> = Vec::new();
    let mut i: usize = 0;
    while i < nodes.len()
        invariant
            nodes@ == kdl_doc_nodes(*doc),
            i <= nodes@.len(),
            out@.len() == i,
            forall|j: int| 0 <= j < i ==> config_node_read(nodes@[j], #[trigger] out@[j]),
        decreases nodes.len() - i,
    {
        let node = &nodes[i];
        let children = match node_children(node) {
            Some(c) => {
                let cn = doc_nodes(c);
                let mut entries: Vec<ConfigEntry> = Vec::new();
                let mut k: usize = 0;
                while k < cn.len()
                    invariant
                        cn@ == kdl_doc_nodes(*c),
                        k <= cn@.len(),
                        entries@.len() == k,
                        forall|m: int|
                            0 <= m < k ==> (#[trigger] entries@[m]).name@ == kdl_node_name(cn@[m])
                                && entries@[m].arg == kdl_node_first_arg(cn@[m]),
                    decreases cn.len() - k,
                {
                    entries.push(ConfigEntry { name: node_name(&cn[k]), arg: node_first_arg(&cn[k]) });
                    k = k + 1;
                }
                Some(entries)
            },
            None => None,
        };
        let cnode = ConfigNode { name: node_name(node), arg: node_first_arg(node), children };
        assert(config_node_read(nodes@[i as int], cnode));
        out.push(cnode);
        i = i + 1;
    }
    out
}

} // verus!
