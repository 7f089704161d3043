//! Trivia trees that hold the same text, and the proofs that reading,
//! rescuing, formatting and writing trivia give the same results on them.
//! Together they show that formatting a document has one result.

use vstd::prelude::*;

use crate::config::KdlFmtConfig;
use crate::kdl_bridge::{
    doc_format_view, doc_read, entry_format_view, kdl_doc_nodes, kdl_node_children,
    kdl_node_entries, lemma_written_nodes, node_format_view, node_read, written_doc,
    written_entry, written_node, written_nodes, rewrite_prefix, kdl_node_with_format,
    kdl_node_with_entries,
};
use crate::tree::{
    doc_formatted, entry_comment_kept, max_name_len, node_entry_comments_kept, node_formatted,
    node_terminator_rescued, nodes_entry_comments_kept, nodes_terminator_rescued, TriviaDoc,
    TriviaNode,
};

verus! {

/// Two nodes with the same name length and the same trivia text, in the
/// node, its entries and its children.
pub open spec fn same_node(a: TriviaNode, b: TriviaNode) -> bool
    decreases a,
{
    &&& a.name_len == b.name_len
    &&& node_format_view(a.format) == node_format_view(b.format)
    &&& a.entries@.len() == b.entries@.len()
    &&& forall|k: int|
        0 <= k < a.entries@.len() ==> entry_format_view(#[trigger] a.entries@[k])
            == entry_format_view(b.entries@[k])
    &&& match (a.children, b.children) {
        (None, None) => true,
        (Some(x), Some(y)) => same_doc(x, y),
        _ => false,
    }
}

/// Two documents with the same trivia text, node by node.
pub open spec fn same_doc(a: TriviaDoc, b: TriviaDoc) -> bool
    decreases a,
{
    &&& doc_format_view(a.format) == doc_format_view(b.format)
    &&& a.nodes@.len() == b.nodes@.len()
    &&& forall|i: int| 0 <= i < a.nodes@.len() ==> same_node(#[trigger] a.nodes@[i], b.nodes@[i])
}

/// Two node lists that match node by node.
pub open spec fn same_nodes(a: Seq<TriviaNode>, b: Seq<TriviaNode>) -> bool {
    &&& a.len() == b.len()
    &&& forall|i: int| 0 <= i < a.len() ==> same_node(#[trigger] a[i], b[i])
}

proof fn lemma_node_read_unique(n: kdl::KdlNode, levels: nat, a: TriviaNode, b: TriviaNode)
    requires
        node_read(n, levels, a),
        node_read(n, levels, b),
    ensures
        same_node(a, b),
    decreases levels, 0nat,
{
    let entries = kdl_node_entries(n);
    assert forall|k: int| 0 <= k < a.entries@.len() implies entry_format_view(
        #[trigger] a.entries@[k],
    ) == entry_format_view(b.entries@[k]) by {
        assert(entry_format_view(a.entries@[k]) == crate::kdl_bridge::kdl_entry_format(entries[k]));
        assert(entry_format_view(b.entries@[k]) == crate::kdl_bridge::kdl_entry_format(entries[k]));
    }
    match kdl_node_children(n) {
        Some(c) => {
            if levels > 0 {
                lemma_doc_read_unique(c, (levels - 1) as nat, a.children->0, b.children->0);
            }
        },
        None => {},
    }
}

/// Reading a document's trivia has one result, up to the text it holds.
pub(crate) proof fn lemma_doc_read_unique(d: kdl::KdlDocument, levels: nat, a: TriviaDoc, b: TriviaDoc)
    requires
        doc_read(d, levels, a),
        doc_read(d, levels, b),
    ensures
        same_doc(a, b),
    decreases levels, 1nat,
{
    let nodes = kdl_doc_nodes(d);
    assert forall|i: int| 0 <= i < a.nodes@.len() implies same_node(
        #[trigger] a.nodes@[i],
        b.nodes@[i],
    ) by {
        lemma_node_read_unique(nodes[i], levels, a.nodes@[i], b.nodes@[i]);
    }
}

proof fn lemma_node_terminator_rescued_same(
    o1: TriviaNode,
    n1: TriviaNode,
    o2: TriviaNode,
    n2: TriviaNode,
)
    requires
        node_terminator_rescued(o1, n1),
        node_terminator_rescued(o2, n2),
        same_node(o1, o2),
    ensures
        same_node(n1, n2),
    decreases o1,
{
    match (o1.children, o2.children) {
        (Some(oc1), Some(oc2)) => {
            assert(decreases_to!(o1 => o1.children));
            let nc1 = n1.children->0;
            let nc2 = n2.children->0;
            lemma_terminator_rescued_same(oc1.nodes@, nc1.nodes@, oc2.nodes@, nc2.nodes@);
        },
        _ => {},
    }
}

/// Rescuing terminator comments gives the same text on the same text.
pub(crate) proof fn lemma_terminator_rescued_same(
    o1: Seq<TriviaNode>,
    n1: Seq<TriviaNode>,
    o2: Seq<TriviaNode>,
    n2: Seq<TriviaNode>,
)
    requires
        nodes_terminator_rescued(o1, n1),
        nodes_terminator_rescued(o2, n2),
        same_nodes(o1, o2),
    ensures
        same_nodes(n1, n2),
    decreases o1,
{
    assert forall|i: int| 0 <= i < n1.len() implies same_node(#[trigger] n1[i], n2[i]) by {
        lemma_node_terminator_rescued_same(o1[i], n1[i], o2[i], n2[i]);
    }
}

proof fn lemma_node_entry_comments_kept_same(
    o1: TriviaNode,
    n1: TriviaNode,
    o2: TriviaNode,
    n2: TriviaNode,
)
    requires
        node_entry_comments_kept(o1, n1),
        node_entry_comments_kept(o2, n2),
        same_node(o1, o2),
    ensures
        same_node(n1, n2),
    decreases o1,
{
    assert forall|k: int| 0 <= k < n1.entries@.len() implies entry_format_view(
        #[trigger] n1.entries@[k],
    ) == entry_format_view(n2.entries@[k]) by {
        assert(entry_comment_kept(o1.entries@[k], n1.entries@[k]));
        assert(entry_comment_kept(o2.entries@[k], n2.entries@[k]));
        assert(entry_format_view(o1.entries@[k]) == entry_format_view(o2.entries@[k]));
    }
    match (o1.children, o2.children) {
        (Some(oc1), Some(oc2)) => {
            assert(decreases_to!(o1 => o1.children));
            let nc1 = n1.children->0;
            let nc2 = n2.children->0;
            lemma_entry_comments_kept_same(oc1.nodes@, nc1.nodes@, oc2.nodes@, nc2.nodes@);
        },
        _ => {},
    }
}

/// Marking entry comments to keep gives the same text on the same text.
pub(crate) proof fn lemma_entry_comments_kept_same(
    o1: Seq<TriviaNode>,
    n1: Seq<TriviaNode>,
    o2: Seq<TriviaNode>,
    n2: Seq<TriviaNode>,
)
    requires
        nodes_entry_comments_kept(o1, n1),
        nodes_entry_comments_kept(o2, n2),
        same_nodes(o1, o2),
    ensures
        same_nodes(n1, n2),
    decreases o1,
{
    assert forall|i: int| 0 <= i < n1.len() implies same_node(#[trigger] n1[i], n2[i]) by {
        lemma_node_entry_comments_kept_same(o1[i], n1[i], o2[i], n2[i]);
    }
}

proof fn lemma_max_name_len_same(a: Seq<TriviaNode>, b: Seq<TriviaNode>)
    requires
        same_nodes(a, b),
    ensures
        max_name_len(a) == max_name_len(b),
    decreases a.len(),
{
    if a.len() > 0 {
        let a1 = a.drop_last();
        let b1 = b.drop_last();
        assert forall|i: int| 0 <= i < a1.len() implies same_node(#[trigger] a1[i], b1[i]) by {
            assert(same_node(a[i], b[i]));
        }
        lemma_max_name_len_same(a1, b1);
        assert(same_node(a[a.len() - 1], b[b.len() - 1]));
    }
}

proof fn lemma_node_formatted_same(
    o1: TriviaNode,
    n1: TriviaNode,
    o2: TriviaNode,
    n2: TriviaNode,
    cfg: KdlFmtConfig,
    depth: nat,
    after_block: bool,
    not_first: bool,
    max_len: nat,
)
    requires
        node_formatted(o1, n1, cfg, depth, after_block, not_first, max_len),
        node_formatted(o2, n2, cfg, depth, after_block, not_first, max_len),
        same_node(o1, o2),
    ensures
        same_node(n1, n2),
    decreases o1,
{
    assert forall|k: int| 0 <= k < n1.entries@.len() implies entry_format_view(
        #[trigger] n1.entries@[k],
    ) == entry_format_view(n2.entries@[k]) by {
        assert(entry_format_view(o1.entries@[k]) == entry_format_view(o2.entries@[k]));
    }
    match (o1.children, o2.children) {
        (Some(oc1), Some(oc2)) => {
            assert(decreases_to!(o1 => o1.children));
            lemma_doc_formatted_same(
                oc1,
                n1.children->0,
                oc2,
                n2.children->0,
                cfg,
                depth + 1,
                cfg.collapse_empty_blocks && oc1.nodes.len() == 0,
            );
        },
        _ => {},
    }
}

/// Formatting trivia gives the same text on the same text.
pub(crate) proof fn lemma_doc_formatted_same(
    o1: TriviaDoc,
    n1: TriviaDoc,
    o2: TriviaDoc,
    n2: TriviaDoc,
    cfg: KdlFmtConfig,
    depth: nat,
    emptied: bool,
)
    requires
        doc_formatted(o1, n1, cfg, depth, emptied),
        doc_formatted(o2, n2, cfg, depth, emptied),
        same_doc(o1, o2),
    ensures
        same_doc(n1, n2),
    decreases o1,
{
    assert(same_nodes(o1.nodes@, o2.nodes@));
    lemma_max_name_len_same(o1.nodes@, o2.nodes@);
    assert forall|i: int| 0 <= i < n1.nodes@.len() implies same_node(
        #[trigger] n1.nodes@[i],
        n2.nodes@[i],
    ) by {
        assert(decreases_to!(o1 => o1.nodes));
        assert(decreases_to!(o1.nodes => o1.nodes@));
        assert(decreases_to!(o1.nodes@ => o1.nodes@[i]));
        if i > 0 {
            assert(same_node(o1.nodes@[i - 1], o2.nodes@[i - 1]));
        }
        lemma_node_formatted_same(
            o1.nodes@[i],
            n1.nodes@[i],
            o2.nodes@[i],
            n2.nodes@[i],
            cfg,
            depth,
            i > 0 && o1.nodes@[i - 1].children is Some,
            i > 0,
            max_name_len(o1.nodes@),
        );
    }
}

proof fn lemma_written_node_same(n: kdl::KdlNode, t: TriviaNode, u: TriviaNode)
    requires
        same_node(t, u),
    ensures
        written_node(n, t) == written_node(n, u),
    decreases t,
{
    let n1 = match t.format {
        Some(f) => kdl_node_with_format(
            n,
            f.leading@,
            f.before_terminator@,
            f.terminator@,
            f.trailing@,
        ),
        None => n,
    };
    let m1 = match u.format {
        Some(f) => kdl_node_with_format(
            n,
            f.leading@,
            f.before_terminator@,
            f.terminator@,
            f.trailing@,
        ),
        None => n,
    };
    assert(n1 == m1);
    let entries = kdl_node_entries(n1);
    assert forall|k: int| 0 <= k < t.entries@.len() implies #[trigger] written_entry(
        entries[k],
        t.entries@[k],
    ) == written_entry(entries[k], u.entries@[k]) by {
        assert(entry_format_view(t.entries@[k]) == entry_format_view(u.entries@[k]));
    }
    let es_t = rewrite_prefix(
        entries,
        t.entries@.len() as int,
        |k: int, e: kdl::KdlEntry| written_entry(e, t.entries@[k]),
    );
    let es_u = rewrite_prefix(
        entries,
        u.entries@.len() as int,
        |k: int, e: kdl::KdlEntry| written_entry(e, u.entries@[k]),
    );
    assert(es_t =~= es_u);
    let n3 = kdl_node_with_entries(kdl_node_with_entries(n1, Seq::empty()), es_t);
    match (t.children, u.children) {
        (Some(tc), Some(uc)) => {
            assert(decreases_to!(t => t.children));
            match kdl_node_children(n3) {
                Some(c) => {
                    lemma_written_doc_same(c, tc, uc);
                },
                None => {},
            }
        },
        _ => {},
    }
}

proof fn lemma_written_nodes_same(nodes: Seq<kdl::KdlNode>, ts: Seq<TriviaNode>, us: Seq<TriviaNode>)
    requires
        same_nodes(ts, us),
    ensures
        written_nodes(nodes, ts) == written_nodes(nodes, us),
    decreases ts,
{
    lemma_written_nodes(nodes, ts);
    lemma_written_nodes(nodes, us);
    assert forall|i: int| 0 <= i < nodes.len() implies #[trigger] written_nodes(nodes, ts)[i]
        == written_nodes(nodes, us)[i] by {
        if i < ts.len() {
            lemma_written_node_same(nodes[i], ts[i], us[i]);
        }
    }
    assert(written_nodes(nodes, ts) =~= written_nodes(nodes, us));
}

/// Writing trivia into a document gives the same document for the same
/// text.
pub(crate) proof fn lemma_written_doc_same(d: kdl::KdlDocument, t: TriviaDoc, u: TriviaDoc)
    requires
        same_doc(t, u),
    ensures
        written_doc(d, t) == written_doc(d, u),
    decreases t,
{
    assert(decreases_to!(t => t.nodes));
    assert(decreases_to!(t.nodes => t.nodes@));
    let d1 = match t.format {
        Some(f) => crate::kdl_bridge::kdl_doc_with_format(d, f.leading@, f.trailing@),
        None => d,
    };
    lemma_written_nodes_same(kdl_doc_nodes(d1), t.nodes@, u.nodes@);
}

} // verus!
