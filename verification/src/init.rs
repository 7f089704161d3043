//! The text of a fresh `kdlfmt.kdl` file.

use vstd::prelude::*;

use crate::config::{is_default_config, level_key, KdlFmtConfig};
use crate::format::{format_kdl, formats_to};
use crate::kdl_bridge::{
    kdl_doc_format, kdl_doc_nodes, kdl_doc_with_nodes, kdl_node_entries, kdl_node_with_children,
    kdl_node_with_entries, set_children,
};
use crate::version::KdlVersion;

verus! {

/// `KdlNode::new` with the given name.
pub uninterp spec fn kdl_new_node(name: Seq<char>) -> kdl::KdlNode;

/// `KdlEntry::from(KdlValue::Integer(value))`.
pub uninterp spec fn kdl_integer_entry(value: int) -> kdl::KdlEntry;

/// `KdlEntry::from(KdlValue::Bool(value))`.
pub uninterp spec fn kdl_bool_entry(value: bool) -> kdl::KdlEntry;

/// A document as `KdlDocument::new` makes it: no nodes, no formatting.
pub open spec fn fresh_document(doc: kdl::KdlDocument) -> bool {
    &&& kdl_doc_nodes(doc) == Seq::<kdl::KdlNode>::empty()
    &&& kdl_doc_format(doc) is None
}

/// A new node named `name` with one argument, the entry `arg`.
pub open spec fn node_with_arg(name: Seq<char>, arg: kdl::KdlEntry) -> kdl::KdlNode {
    let n = kdl_new_node(name);
    kdl_node_with_entries(n, kdl_node_entries(n).push(arg))
}

/// `doc` with `node` appended to its nodes.
pub open spec fn with_node_pushed(doc: kdl::KdlDocument, node: kdl::KdlNode) -> kdl::KdlDocument {
    kdl_doc_with_nodes(doc, kdl_doc_nodes(doc).push(node))
}

/// The block of `newlines_before_comments`: `level1` up to `level{k}`, each
/// with the setting of `c` for that level, appended to `doc`.
pub open spec fn levels_document(doc: kdl::KdlDocument, c: KdlFmtConfig, k: nat) -> kdl::KdlDocument
    decreases k,
{
    if k == 0 {
        doc
    } else {
        with_node_pushed(
            levels_document(doc, c, (k - 1) as nat),
            node_with_arg(
                level_key(k),
                kdl_integer_entry(c.newlines_before_comments@[k - 1] as int),
            ),
        )
    }
}

/// The `kdlfmt.kdl` document of the settings `c`, built up from the fresh
/// documents `top` and `block`: `indent_size` (the indentation's length in
/// bytes), `use_tabs`, the `newlines_before_comments` block, and the
/// `justify_first_property`, `remove_trailing_blank_lines_in_blocks` and
/// `collapse_empty_blocks` switches.
pub open spec fn settings_document(
    top: kdl::KdlDocument,
    block: kdl::KdlDocument,
    c: KdlFmtConfig,
) -> kdl::KdlDocument {
    let d1 = with_node_pushed(
        top,
        node_with_arg(
            "indent_size"@,
            kdl_integer_entry((vstd::utf8::encode_utf8(c.indent@).len() as usize) as int),
        ),
    );
    let d2 = with_node_pushed(d1, node_with_arg("use_tabs"@, kdl_bool_entry(c.use_tabs)));
    let newlines = kdl_node_with_children(
        kdl_new_node("newlines_before_comments"@),
        Some(levels_document(block, c, 5)),
    );
    let d3 = with_node_pushed(d2, newlines);
    let d4 = with_node_pushed(
        d3,
        node_with_arg("justify_first_property"@, kdl_bool_entry(c.justify_first_property)),
    );
    let d5 = with_node_pushed(
        d4,
        node_with_arg(
            "remove_trailing_blank_lines_in_blocks"@,
            kdl_bool_entry(c.remove_trailing_blank_lines_in_blocks),
        ),
    );
    with_node_pushed(
        d5,
        node_with_arg("collapse_empty_blocks"@, kdl_bool_entry(c.collapse_empty_blocks)),
    )
}

/// A `kdlfmt.kdl` document holding the default settings: `indent_size`,
/// `use_tabs`, the `newlines_before_comments` levels, and the
/// `justify_first_property`, `remove_trailing_blank_lines_in_blocks` and
/// `collapse_empty_blocks` switches, formatted with the default
/// configuration for the given version.
pub fn default_config_text(version: KdlVersion) -> (r: String)
    ensures
        exists|top: kdl::KdlDocument, block: kdl::KdlDocument, c: KdlFmtConfig, f: KdlFmtConfig|
            fresh_document(top) && fresh_document(block) && is_default_config(c)
                && is_default_config(f) && formats_to(settings_document(top, block, c), f, version, r@),
{
    let config = KdlFmtConfig::default();
    let mut doc = new_document();
    let ghost top = doc;

    let mut indent_size = new_node(KdlFmtConfig::indent_size_key());
    push_integer(&mut indent_size, config.indent.as_str().len());
    push_node(&mut doc, indent_size);

    let mut use_tabs = new_node(KdlFmtConfig::use_tabs_key());
    push_bool(&mut use_tabs, config.use_tabs);
    push_node(&mut doc, use_tabs);

    let mut newlines = new_node(KdlFmtConfig::newlines_before_comments_key());
    let mut levels = new_document();
    let ghost block = levels;
    let keys = ["level1", "level2", "level3", "level4", "level5"];
    proof {
        reveal_strlit("level1");
        reveal_strlit("level2");
        reveal_strlit("level3");
        reveal_strlit("level4");
        reveal_strlit("level5");
        assert(keys@[0]@ =~= level_key(1));
        assert(keys@[1]@ =~= level_key(2));
        assert(keys@[2]@ =~= level_key(3));
        assert(keys@[3]@ =~= level_key(4));
        assert(keys@[4]@ =~= level_key(5));
    }
    let mut i: usize = 0;
    while i < 5
        invariant
            i <= 5,
            forall|j: int| 0 <= j < 5 ==> (#[trigger] keys@[j])@ == level_key((j + 1) as nat),
            levels == levels_document(block, config, i as nat),
            config.newlines_before_comments@.len() == 5,
        decreases 5 - i,
    {
        let mut level = new_node(keys[i]);
        push_integer(&mut level, config.newlines_before_comments[i] as usize);
        push_node(&mut levels, level);
        i = i + 1;
    }
    set_children(&mut newlines, levels);
    push_node(&mut doc, newlines);

    let mut justify = new_node(KdlFmtConfig::justify_first_property_key());
    push_bool(&mut justify, config.justify_first_property);
    push_node(&mut doc, justify);

    let mut trailing = new_node(KdlFmtConfig::remove_trailing_blank_lines_key());
    push_bool(&mut trailing, config.remove_trailing_blank_lines_in_blocks);
    push_node(&mut doc, trailing);

    let mut collapse = new_node(KdlFmtConfig::collapse_empty_blocks_key());
    push_bool(&mut collapse, config.collapse_empty_blocks);
    push_node(&mut doc, collapse);

    proof {
        assert(doc == settings_document(top, block, config));
    }
    let fmt_config = KdlFmtConfig::default();
    let r = format_kdl(doc, &fmt_config, version);
    proof {
        assert(formats_to(settings_document(top, block, config), fmt_config, version, r@));
    }
    r
}

/// `KdlDocument::new`: no nodes and no formatting.
#[verifier::external_body]
fn new_document() -> (r: kdl::KdlDocument)
    ensures
        fresh_document(r),
{
    kdl::KdlDocument::new()
}

/// `KdlNode::new` with the given name.
#[verifier::external_body]
fn new_node(name: &str) -> (r: kdl::KdlNode)
    ensures
        r == kdl_new_node(name@),
{
    kdl::KdlNode::new(name)
}

/// `KdlNode::push` of an integer argument, which appends the entry to the
/// node's entries.
#[verifier::external_body]
fn push_integer(node: &mut kdl::KdlNode, value: usize)
    ensures
        *final(node) == kdl_node_with_entries(
            *old(node),
            kdl_node_entries(*old(node)).push(kdl_integer_entry(value as int)),
        ),
{
    node.push(kdl::KdlEntry::from(kdl::KdlValue::Integer(value as i128)))
}

/// `KdlNode::push` of a boolean argument, which appends the entry to the
/// node's entries.
#[verifier::external_body]
fn push_bool(node: &mut kdl::KdlNode, value: bool)
    ensures
        *final(node) == kdl_node_with_entries(
            *old(node),
            kdl_node_entries(*old(node)).push(kdl_bool_entry(value)),
        ),
{
    node.push(kdl::KdlEntry::from(kdl::KdlValue::Bool(value)))
}

/// Appends a node through `KdlDocument::nodes_mut`.
#[verifier::external_body]
fn push_node(doc: &mut kdl::KdlDocument, node: kdl::KdlNode)
    ensures
        *final(doc) == kdl_doc_with_nodes(*old(doc), kdl_doc_nodes(*old(doc)).push(node)),
{
    doc.nodes_mut().push(node)
}

} // verus!
