//! The trivia of a KDL document as plain values, and the formatting passes
//! that rewrite it.
//!
//! A `TriviaDoc` mirrors the shape of a parsed document: each node keeps the
//! byte length of its name, its own trivia, the trivia of its entries, and its
//! children. The passes here change trivia only; the shape is kept.

use vstd::prelude::*;

use crate::config::KdlFmtConfig;
use crate::text::{concat, contains, find, find_from, push_all, repeat, repeat_vec, seqs_view, slice_vec, starts_with};
use crate::trivia::{
    lemma_find_bounds, line_marker, open_marker, has_comment, has_comment_vec, lemma_leading_line_feeds_kept, line_feeds, processed, TriviaProcessor,
};

verus! {

/// The whitespace and comments before a document's first node and after
/// its last.
pub struct DocTrivia {
    pub leading: Vec<char>,
    pub trailing: Vec<char>,
}

/// The whitespace and comments around a node: before it, before and as its
/// terminator, and after it.
pub struct NodeTrivia {
    pub leading: Vec<char>,
    pub before_terminator: Vec<char>,
    pub terminator: Vec<char>,
    pub trailing: Vec<char>,
}

/// The whitespace and comments around an entry, and whether the entry keeps
/// its own formatting through autoformatting.
pub struct EntryTrivia {
    pub leading: Vec<char>,
    pub trailing: Vec<char>,
    pub keep: bool,
}

/// A node: its name's length in bytes, its trivia (absent when the node has
/// no recorded formatting), its entries' trivia, and its children.
pub struct TriviaNode {
    pub name_len: usize,
    pub format: Option<NodeTrivia>,
    pub entries: Vec<Option<EntryTrivia>>,
    pub children: Option<TriviaDoc>,
}

/// A document: its trivia (absent when it has no recorded formatting) and
/// its nodes.
pub struct TriviaDoc {
    pub format: Option<DocTrivia>,
    pub nodes: Vec<TriviaNode>,
}

/// `n` line feeds.
pub open spec fn newlines(n: u32) -> Seq<char> {
    Seq::new(n as nat, |i: int| '\n')
}

/// The longest name among `nodes`, in bytes.
pub open spec fn max_name_len(nodes: Seq<TriviaNode>) -> nat
    decreases nodes.len(),
{
    if nodes.len() == 0 {
        0
    } else {
        let m = max_name_len(nodes.drop_last());
        if nodes.last().name_len > m {
            nodes.last().name_len as nat
        } else {
            m
        }
    }
}

/// The leading trivia of a node's first entry under property justification:
/// trivia with a comment is kept, with one space in front if it lacks one;
/// other trivia becomes the spaces that line the entry up one column after
/// the longest name of the group.
pub open spec fn justified(leading: Seq<char>, max_len: nat, name_len: nat) -> Seq<char> {
    if has_comment(leading) {
        if starts_with(leading, seq![' ']) {
            leading
        } else {
            seq![' '] + leading
        }
    } else {
        Seq::new((max_len - name_len + 1) as nat, |i: int| ' ')
    }
}

/// An entry after formatting: the first entry of a node is justified when
/// that rule is on, and every entry's trailing trivia is rewritten inline.
pub open spec fn entry_formatted(
    o: Option<EntryTrivia>,
    n: Option<EntryTrivia>,
    cfg: KdlFmtConfig,
    indent: Seq<char>,
    justify: bool,
    max_len: nat,
    name_len: nat,
) -> bool {
    match (o, n) {
        (None, None) => true,
        (Some(oe), Some(ne)) => {
            &&& ne.keep == oe.keep
            &&& ne.leading@ == (if justify {
                justified(oe.leading@, max_len, name_len)
            } else {
                oe.leading@
            })
            &&& ne.trailing@ == processed(cfg, indent, true, oe.trailing@)
        },
        _ => false,
    }
}

/// A node's leading trivia before it is rewritten: blank lines after the
/// closing brace of the previous node when that node has children, then
/// blank lines before a comment when the trivia holds one and the node is
/// not the first of its group. Both apply at the five outermost depths only.
pub open spec fn leading_with_blank_lines(
    leading: Seq<char>,
    cfg: KdlFmtConfig,
    depth: nat,
    after_block: bool,
    not_first: bool,
) -> Seq<char> {
    let l1 = if after_block && depth < 5 && cfg.newlines_after_close@[depth as int] > 0 {
        newlines(cfg.newlines_after_close@[depth as int]) + leading
    } else {
        leading
    };
    if not_first && depth < 5 && cfg.newlines_before_comments@[depth as int] > 0 && has_comment(
        l1,
    ) {
        newlines(cfg.newlines_before_comments@[depth as int]) + l1
    } else {
        l1
    }
}

/// `n` is node `o` formatted at `depth`, where `after_block` says whether
/// the previous node of the group has children, `not_first` whether there
/// is a previous node, and `max_len` is the longest name of the group.
pub open spec fn node_formatted(
    o: TriviaNode,
    n: TriviaNode,
    cfg: KdlFmtConfig,
    depth: nat,
    after_block: bool,
    not_first: bool,
    max_len: nat,
) -> bool
    decreases o,
{
    let indent = repeat(cfg.indent@, depth);
    &&& n.name_len == o.name_len
    &&& n.entries.len() == o.entries.len()
    &&& forall|k: int|
        0 <= k < o.entries.len() ==> entry_formatted(
            #[trigger] o.entries@[k],
            n.entries@[k],
            cfg,
            indent,
            k == 0 && cfg.justify_first_property,
            max_len,
            o.name_len as nat,
        )
    &&& match (o.format, n.format) {
        (None, None) => true,
        (Some(of), Some(nf)) => {
            &&& nf.leading@ == processed(
                cfg,
                indent,
                false,
                leading_with_blank_lines(of.leading@, cfg, depth, after_block, not_first),
            )
            &&& nf.before_terminator@ == processed(cfg, indent, true, of.before_terminator@)
            &&& nf.terminator@ == of.terminator@
            &&& nf.trailing@ == processed(cfg, indent, false, of.trailing@)
        },
        _ => false,
    }
    &&& match (o.children, n.children) {
        (None, None) => true,
        (Some(oc), Some(nc)) => doc_formatted(
            oc,
            nc,
            cfg,
            depth + 1,
            cfg.collapse_empty_blocks && oc.nodes.len() == 0,
        ),
        _ => false,
    }
}

/// `n` is document `o` formatted at `depth`: its own trivia rewritten (or
/// emptied, for a collapsed empty block), and each node formatted.
pub open spec fn doc_formatted(
    o: TriviaDoc,
    n: TriviaDoc,
    cfg: KdlFmtConfig,
    depth: nat,
    emptied: bool,
) -> bool
    decreases o,
{
    let indent = repeat(cfg.indent@, depth);
    &&& match (o.format, n.format) {
        (None, None) => true,
        (Some(of), Some(nf)) => {
            &&& nf.leading@ == (if emptied {
                Seq::empty()
            } else {
                processed(cfg, indent, false, of.leading@)
            })
            &&& nf.trailing@ == (if emptied {
                Seq::empty()
            } else {
                processed(cfg, indent, false, of.trailing@)
            })
        },
        _ => false,
    }
    &&& n.nodes.len() == o.nodes.len()
    &&& forall|i: int|
        0 <= i < o.nodes.len() ==> node_formatted(
            #[trigger] o.nodes@[i],
            n.nodes@[i],
            cfg,
            depth,
            i > 0 && o.nodes@[i - 1].children is Some,
            i > 0,
            max_name_len(o.nodes@),
        )
}

/// Executable `max_name_len`.
fn max_name_len_vec(nodes: &Vec<TriviaNode>) -> (m: usize)
    ensures
        m == max_name_len(nodes@),
        forall|i: int| 0 <= i < nodes@.len() ==> #[trigger] nodes@[i].name_len <= m,
{
    let mut m: usize = 0;
    let mut i: usize = 0;
    while i < nodes.len()
        invariant
            i <= nodes.len(),
            m == max_name_len(nodes@.take(i as int)),
            forall|j: int| 0 <= j < i ==> #[trigger] nodes@[j].name_len <= m,
        decreases nodes.len() - i,
    {
        assert(nodes@.take(i + 1).drop_last() =~= nodes@.take(i as int));
        if nodes[i].name_len > m {
            m = nodes[i].name_len;
        }
        i = i + 1;
    }
    assert(nodes@.take(nodes@.len() as int) =~= nodes@);
    m
}

/// `n` copies of `c`.
fn copies(c: char, n: usize) -> (r: Vec<char>)
    ensures
        r@ == Seq::new(n as nat, |i: int| c),
{
    let mut r: Vec<char> = Vec::new();
    let mut i: usize = 0;
    while i < n
        invariant
            i <= n,
            r@ == Seq::new(i as nat, |j: int| c),
        decreases n - i,
    {
        r.push(c);
        i = i + 1;
        assert(r@ =~= Seq::new(i as nat, |j: int| c));
    }
    r
}

/// Executable `justified`.
fn justified_vec(leading: &[char], max_len: usize, name_len: usize) -> (r: Vec<char>)
    requires
        name_len <= max_len,
    ensures
        r@ == justified(leading@, max_len as nat, name_len as nat),
{
    if has_comment_vec(leading) {
        if leading.len() > 0 && leading[0] == ' ' {
            assert(leading@.take(1) =~= seq![' ']);
            slice_vec(leading, 0, leading.len())
        } else {
            assert(!starts_with(leading@, seq![' '])) by {
                if leading@.len() > 0 {
                    assert(leading@.take(1)[0] == leading@[0]);
                }
            }
            concat(&[' '], leading)
        }
    } else {
        let mut r = copies(' ', max_len - name_len);
        r.push(' ');
        assert(r@ =~= Seq::new((max_len - name_len + 1) as nat, |i: int| ' '));
        r
    }
}

/// Executable `leading_with_blank_lines`, with the depth capped at 5.
fn leading_with_blank_lines_vec(
    leading: &[char],
    cfg: &KdlFmtConfig,
    level: usize,
    after_block: bool,
    not_first: bool,
    Ghost(depth): Ghost<nat>,
) -> (r: Vec<char>)
    requires
        level == (if depth < 5 { depth } else { 5 }),
    ensures
        r@ == leading_with_blank_lines(leading@, *cfg, depth, after_block, not_first),
{
    let mut l1 = slice_vec(leading, 0, leading.len());
    if after_block && level < 5 && cfg.newlines_after_close[level] > 0 {
        let nl = copies('\n', cfg.newlines_after_close[level] as usize);
        l1 = concat(nl.as_slice(), leading);
    }
    assert(l1@ =~= (if after_block && depth < 5 && cfg.newlines_after_close@[depth as int] > 0 {
        newlines(cfg.newlines_after_close@[depth as int]) + leading@
    } else {
        leading@
    }));
    if not_first && level < 5 && cfg.newlines_before_comments[level] > 0 && has_comment_vec(
        l1.as_slice(),
    ) {
        let nl = copies('\n', cfg.newlines_before_comments[level] as usize);
        let r = concat(nl.as_slice(), l1.as_slice());
        assert(nl@ =~= newlines(cfg.newlines_before_comments@[depth as int]));
        r
    } else {
        l1
    }
}

/// Formats the entries of one node.
fn format_entries(
    entries: Vec<Option<EntryTrivia>>,
    tp: &TriviaProcessor,
    justify: bool,
    max_len: usize,
    name_len: usize,
) -> (r: Vec<Option<EntryTrivia>>)
    requires
        name_len <= max_len,
    ensures
        r@.len() == entries@.len(),
        forall|k: int|
            0 <= k < entries@.len() ==> entry_formatted(
                #[trigger] entries@[k],
                r@[k],
                *tp.config,
                tp.indent@,
                k == 0 && justify,
                max_len as nat,
                name_len as nat,
            ),
{
    let ghost old_entries = entries@;
    let mut rest = entries;
    let mut out: Vec<Option<EntryTrivia>> = Vec::new();
    let n = rest.len();
    let mut k: usize = 0;
    while k < n
        invariant
            k <= n == old_entries.len(),
            name_len <= max_len,
            rest@ == old_entries.skip(k as int),
            out@.len() == k,
            forall|j: int|
                0 <= j < k ==> entry_formatted(
                    #[trigger] old_entries[j],
                    out@[j],
                    *tp.config,
                    tp.indent@,
                    j == 0 && justify,
                    max_len as nat,
                    name_len as nat,
                ),
        decreases n - k,
    {
        assert(rest@[0] == old_entries[k as int]);
        let e = rest.remove(0);
        let ne = match e {
            Some(t) => {
                let EntryTrivia { leading, trailing, keep } = t;
                let leading2 = if k == 0 && justify {
                    justified_vec(leading.as_slice(), max_len, name_len)
                } else {
                    leading
                };
                let trailing2 = tp.process(trailing.as_slice(), true);
                Some(EntryTrivia { leading: leading2, trailing: trailing2, keep })
            },
            None => None,
        };
        out.push(ne);
        assert(rest@ =~= old_entries.skip(k + 1));
        k = k + 1;
    }
    out
}

impl<'a> TriviaProcessor<'a> {
    /// The rewriter with the given indentation.
    fn with_indent(config: &'a KdlFmtConfig, indent: Vec<char>) -> (tp: Self)
        ensures
            tp.config == config,
            tp.indent == indent,
    {
        TriviaProcessor { config, indent }
    }
}

/// Formats one node of a group.
fn format_node(
    o: TriviaNode,
    cfg: &KdlFmtConfig,
    tp: &TriviaProcessor,
    level: usize,
    Ghost(depth): Ghost<nat>,
    after_block: bool,
    not_first: bool,
    max_len: usize,
) -> (n: TriviaNode)
    requires
        tp.config == cfg,
        tp.indent@ == repeat(cfg.indent@, depth),
        level == (if depth < 5 { depth } else { 5 }),
        o.name_len <= max_len,
    ensures
        node_formatted(o, n, *cfg, depth, after_block, not_first, max_len as nat),
    decreases o, 0nat,
{
    let ghost old_o = o;
    let TriviaNode { name_len, format, entries, children } = o;
    let entries2 = format_entries(entries, tp, cfg.justify_first_property, max_len, name_len);
    let format2 = match format {
        Some(f) => {
            let NodeTrivia { leading, before_terminator, terminator, trailing } = f;
            let l = leading_with_blank_lines_vec(
                leading.as_slice(),
                cfg,
                level,
                after_block,
                not_first,
                Ghost(depth),
            );
            Some(
                NodeTrivia {
                    leading: tp.process(l.as_slice(), false),
                    before_terminator: tp.process(before_terminator.as_slice(), true),
                    terminator,
                    trailing: tp.process(trailing.as_slice(), false),
                },
            )
        },
        None => None,
    };
    let children2 = match children {
        Some(c) => {
            let emptied = cfg.collapse_empty_blocks && c.nodes.len() == 0;
            let unit = crate::text::chars_of(cfg.indent.as_str());
            let child_indent = concat(tp.indent.as_slice(), unit.as_slice());
            let child_level = if level < 5 {
                level + 1
            } else {
                5
            };
            Some(format_doc(c, cfg, child_indent, child_level, Ghost(depth + 1), emptied))
        },
        None => None,
    };
    TriviaNode { name_len, format: format2, entries: entries2, children: children2 }
}

/// Formats a document at `depth`, whose indentation is `indent`.
fn format_doc(
    o: TriviaDoc,
    cfg: &KdlFmtConfig,
    indent: Vec<char>,
    level: usize,
    Ghost(depth): Ghost<nat>,
    emptied: bool,
) -> (n: TriviaDoc)
    requires
        indent@ == repeat(cfg.indent@, depth),
        level == (if depth < 5 { depth } else { 5 }),
    ensures
        doc_formatted(o, n, *cfg, depth, emptied),
    decreases o, 1nat,
{
    let ghost old_o = o;
    let ghost old_nodes = o.nodes@;
    let tp = TriviaProcessor::with_indent(cfg, indent);
    let TriviaDoc { format, nodes } = o;
    let format2 = match format {
        Some(f) => {
            let DocTrivia { leading, trailing } = f;
            if emptied {
                Some(DocTrivia { leading: Vec::new(), trailing: Vec::new() })
            } else {
                Some(
                    DocTrivia {
                        leading: tp.process(leading.as_slice(), false),
                        trailing: tp.process(trailing.as_slice(), false),
                    },
                )
            }
        },
        None => None,
    };
    let max_len = max_name_len_vec(&nodes);
    let mut rest = nodes;
    let mut out: Vec<TriviaNode> = Vec::new();
    let mut prev_block = false;
    let n = rest.len();
    let mut i: usize = 0;
    while i < n
        invariant
            i <= n == old_nodes.len(),
            old_nodes == old_o.nodes@,
            old_o == o,
            rest@ == old_nodes.skip(i as int),
            out@.len() == i,
            max_len == max_name_len(old_nodes),
            forall|j: int| 0 <= j < old_nodes.len() ==> #[trigger] old_nodes[j].name_len <= max_len,
            prev_block == (i > 0 && old_nodes[i - 1].children is Some),
            tp.config == cfg,
            tp.indent@ == repeat(cfg.indent@, depth),
            level == (if depth < 5 { depth } else { 5 }),
            forall|j: int|
                0 <= j < i ==> node_formatted(
                    #[trigger] old_nodes[j],
                    out@[j],
                    *cfg,
                    depth,
                    j > 0 && old_nodes[j - 1].children is Some,
                    j > 0,
                    max_len as nat,
                ),
        decreases n - i,
    {
        assert(rest@[0] == old_nodes[i as int]);
        let node = rest.remove(0);
        let has_children = node.children.is_some();
        assert(old_nodes[i as int].name_len <= max_len);
        assert(decreases_to!(old_o => old_o.nodes));
        assert(decreases_to!(old_o.nodes => old_o.nodes@));
        assert(decreases_to!(old_o.nodes@ => old_o.nodes@[i as int]));
        let nn = format_node(node, cfg, &tp, level, Ghost(depth), prev_block, i > 0, max_len);
        out.push(nn);
        prev_block = has_children;
        assert(rest@ =~= old_nodes.skip(i + 1));
        i = i + 1;
    }
    TriviaDoc { format: format2, nodes: out }
}

/// Applies the formatting rules to a document at nesting depth `depth`:
/// its trivia and that of all its nodes, entries and descendants are
/// rewritten, first properties are justified, blank lines are added after
/// blocks and before comments, and empty blocks are collapsed, each as the
/// configuration asks.
pub fn apply_formatting(doc: &mut TriviaDoc, config: &KdlFmtConfig, depth: usize)
    ensures
        doc_formatted(*old(doc), *final(doc), *config, depth as nat, false),
{
    let tp = TriviaProcessor::new(config, depth);
    let level = if depth < 5 {
        depth
    } else {
        5
    };
    let mut taken = TriviaDoc { format: None, nodes: Vec::new() };
    std::mem::swap(&mut taken, doc);
    *doc = format_doc(taken, config, tp.indent, level, Ghost(depth as nat), false);
}

/// `s` without the run of `c` at its end (`str::trim_end_matches(c)`).
pub open spec fn trim_end_char(s: Seq<char>, c: char) -> Seq<char>
    decreases s.len(),
{
    if s.len() > 0 && s.last() == c {
        trim_end_char(s.drop_last(), c)
    } else {
        s
    }
}

/// The comment text of a terminator: without its trailing line feeds, and
/// then without its trailing carriage returns.
pub open spec fn terminator_comment(term: Seq<char>) -> Seq<char> {
    trim_end_char(trim_end_char(term, '\n'), '\r')
}

/// `n` is node `o` with a comment in its terminator moved to the end of the
/// trivia before the terminator, which becomes a single line feed; likewise
/// for all descendants. Nothing else changes.
pub open spec fn node_terminator_rescued(o: TriviaNode, n: TriviaNode) -> bool
    decreases o,
{
    &&& n.name_len == o.name_len
    &&& n.entries == o.entries
    &&& match (o.format, n.format) {
        (None, None) => true,
        (Some(of), Some(nf)) => {
            &&& nf.leading@ == of.leading@
            &&& nf.trailing@ == of.trailing@
            &&& if has_comment(of.terminator@) {
                &&& nf.before_terminator@ == of.before_terminator@ + terminator_comment(
                    of.terminator@,
                )
                &&& nf.terminator@ == seq!['\n']
            } else {
                &&& nf.before_terminator@ == of.before_terminator@
                &&& nf.terminator@ == of.terminator@
            }
        },
        _ => false,
    }
    &&& match (o.children, n.children) {
        (None, None) => true,
        (Some(oc), Some(nc)) => {
            &&& nc.format == oc.format
            &&& nodes_terminator_rescued(oc.nodes@, nc.nodes@)
        },
        _ => false,
    }
}

/// Each node of `n` is the matching node of `o` with its terminator
/// comments rescued.
pub open spec fn nodes_terminator_rescued(o: Seq<TriviaNode>, n: Seq<TriviaNode>) -> bool
    decreases o,
{
    &&& n.len() == o.len()
    &&& forall|i: int|
        0 <= i < o.len() ==> node_terminator_rescued(#[trigger] o[i], n[i])
}

/// An entry whose leading trivia holds a comment is marked to keep its
/// formatting through autoformatting; nothing else changes.
pub open spec fn entry_comment_kept(o: Option<EntryTrivia>, n: Option<EntryTrivia>) -> bool {
    match (o, n) {
        (None, None) => true,
        (Some(oe), Some(ne)) => {
            &&& ne.leading@ == oe.leading@
            &&& ne.trailing@ == oe.trailing@
            &&& ne.keep == (oe.keep || has_comment(oe.leading@))
        },
        _ => false,
    }
}

/// `n` is node `o` with the entries whose leading trivia holds a comment
/// marked to keep their formatting, in it and all its descendants.
pub open spec fn node_entry_comments_kept(o: TriviaNode, n: TriviaNode) -> bool
    decreases o,
{
    &&& n.name_len == o.name_len
    &&& n.format == o.format
    &&& n.entries.len() == o.entries.len()
    &&& forall|k: int|
        0 <= k < o.entries.len() ==> entry_comment_kept(#[trigger] o.entries@[k], n.entries@[k])
    &&& match (o.children, n.children) {
        (None, None) => true,
        (Some(oc), Some(nc)) => {
            &&& nc.format == oc.format
            &&& nodes_entry_comments_kept(oc.nodes@, nc.nodes@)
        },
        _ => false,
    }
}

/// Each node of `n` is the matching node of `o` with its entry comments
/// kept.
pub open spec fn nodes_entry_comments_kept(o: Seq<TriviaNode>, n: Seq<TriviaNode>) -> bool
    decreases o,
{
    &&& n.len() == o.len()
    &&& forall|i: int|
        0 <= i < o.len() ==> node_entry_comments_kept(#[trigger] o[i], n[i])
}

/// Executable `trim_end_char`.
fn trim_end_char_vec(s: &[char], c: char) -> (r: Vec<char>)
    ensures
        r@ == trim_end_char(s@, c),
{
    let mut k = s.len();
    assert(s@.take(s@.len() as int) =~= s@);
    while k > 0 && s[k - 1] == c
        invariant
            k <= s.len(),
            trim_end_char(s@, c) == trim_end_char(s@.take(k as int), c),
        decreases k,
    {
        assert(s@.take(k as int).drop_last() =~= s@.take(k - 1));
        k = k - 1;
    }
    slice_vec(s, 0, k)
}

/// Moves comments out of node terminators, in `o` and its descendants.
fn rescue_node_terminator(o: TriviaNode) -> (n: TriviaNode)
    ensures
        node_terminator_rescued(o, n),
    decreases o, 0nat,
{
    let ghost old_o = o;
    let TriviaNode { name_len, format, entries, children } = o;
    let format2 = match format {
        Some(f) => {
            let NodeTrivia { leading, before_terminator, terminator, trailing } = f;
            if has_comment_vec(terminator.as_slice()) {
                let t1 = trim_end_char_vec(terminator.as_slice(), '\n');
                let comment = trim_end_char_vec(t1.as_slice(), '\r');
                let mut bt = before_terminator;
                push_all(&mut bt, comment.as_slice());
                let nl = vec!['\n'];
                assert(nl@ =~= seq!['\n']);
                Some(NodeTrivia { leading, before_terminator: bt, terminator: nl, trailing })
            } else {
                Some(NodeTrivia { leading, before_terminator, terminator, trailing })
            }
        },
        None => None,
    };
    let children2 = match children {
        Some(c) => {
            let TriviaDoc { format: cf, nodes } = c;
            assert(decreases_to!(old_o => old_o.children));
            Some(TriviaDoc { format: cf, nodes: rescue_terminator_nodes(nodes) })
        },
        None => None,
    };
    TriviaNode { name_len, format: format2, entries, children: children2 }
}

/// Moves comments out of the terminators of `nodes` and their descendants.
fn rescue_terminator_nodes(nodes: Vec<TriviaNode>) -> (r: Vec<TriviaNode>)
    ensures
        nodes_terminator_rescued(nodes@, r@),
    decreases nodes@, 1nat,
{
    let ghost old_nodes = nodes@;
    let mut rest = nodes;
    let mut out: Vec<TriviaNode> = Vec::new();
    let n = rest.len();
    let mut i: usize = 0;
    while i < n
        invariant
            i <= n == old_nodes.len(),
            old_nodes == nodes@,
            rest@ == old_nodes.skip(i as int),
            out@.len() == i,
            forall|j: int|
                0 <= j < i ==> node_terminator_rescued(#[trigger] old_nodes[j], out@[j]),
        decreases n - i,
    {
        assert(rest@[0] == old_nodes[i as int]);
        let node = rest.remove(0);
        assert(decreases_to!(old_nodes => old_nodes[i as int]));
        out.push(rescue_node_terminator(node));
        assert(rest@ =~= old_nodes.skip(i + 1));
        i = i + 1;
    }
    out
}

/// Moves comments that the parser left in node terminators to the trivia
/// before the terminator, so that autoformatting, which resets terminators
/// that do not start with a line feed, keeps them.
pub fn rescue_terminator_comments(nodes: &mut Vec<TriviaNode>)
    ensures
        nodes_terminator_rescued(old(nodes)@, final(nodes)@),
{
    let mut taken: Vec<TriviaNode> = Vec::new();
    std::mem::swap(&mut taken, nodes);
    *nodes = rescue_terminator_nodes(taken);
}

/// Marks the entries of `o` and its descendants whose leading trivia holds a
/// comment.
fn keep_node_entry_comments(o: TriviaNode) -> (n: TriviaNode)
    ensures
        node_entry_comments_kept(o, n),
    decreases o, 0nat,
{
    let ghost old_o = o;
    let TriviaNode { name_len, format, entries, children } = o;
    let ghost old_entries = entries@;
    let mut rest = entries;
    let mut out: Vec<Option<EntryTrivia>> = Vec::new();
    let n = rest.len();
    let mut k: usize = 0;
    while k < n
        invariant
            k <= n == old_entries.len(),
            rest@ == old_entries.skip(k as int),
            out@.len() == k,
            forall|j: int| 0 <= j < k ==> entry_comment_kept(#[trigger] old_entries[j], out@[j]),
        decreases n - k,
    {
        assert(rest@[0] == old_entries[k as int]);
        let e = rest.remove(0);
        let ne = match e {
            Some(t) => {
                let EntryTrivia { leading, trailing, keep } = t;
                let keep2 = keep || has_comment_vec(leading.as_slice());
                Some(EntryTrivia { leading, trailing, keep: keep2 })
            },
            None => None,
        };
        out.push(ne);
        assert(rest@ =~= old_entries.skip(k + 1));
        k = k + 1;
    }
    let children2 = match children {
        Some(c) => {
            let TriviaDoc { format: cf, nodes } = c;
            assert(decreases_to!(old_o => old_o.children));
            Some(TriviaDoc { format: cf, nodes: keep_entry_comment_nodes(nodes) })
        },
        None => None,
    };
    TriviaNode { name_len, format, entries: out, children: children2 }
}

/// Marks the commented entries of `nodes` and their descendants.
fn keep_entry_comment_nodes(nodes: Vec<TriviaNode>) -> (r: Vec<TriviaNode>)
    ensures
        nodes_entry_comments_kept(nodes@, r@),
    decreases nodes@, 1nat,
{
    let ghost old_nodes = nodes@;
    let mut rest = nodes;
    let mut out: Vec<TriviaNode> = Vec::new();
    let n = rest.len();
    let mut i: usize = 0;
    while i < n
        invariant
            i <= n == old_nodes.len(),
            old_nodes == nodes@,
            rest@ == old_nodes.skip(i as int),
            out@.len() == i,
            forall|j: int|
                0 <= j < i ==> node_entry_comments_kept(#[trigger] old_nodes[j], out@[j]),
        decreases n - i,
    {
        assert(rest@[0] == old_nodes[i as int]);
        let node = rest.remove(0);
        assert(decreases_to!(old_nodes => old_nodes[i as int]));
        out.push(keep_node_entry_comments(node));
        assert(rest@ =~= old_nodes.skip(i + 1));
        i = i + 1;
    }
    out
}

/// Marks every entry whose leading trivia holds a comment to keep its
/// formatting, since autoformatting otherwise drops entry formatting and
/// with it the comment.
pub fn rescue_entry_leading_comments(nodes: &mut Vec<TriviaNode>)
    ensures
        nodes_entry_comments_kept(old(nodes)@, final(nodes)@),
{
    let mut taken: Vec<TriviaNode> = Vec::new();
    std::mem::swap(&mut taken, nodes);
    *nodes = keep_entry_comment_nodes(taken);
}

/// The node reached from `nodes` by `path`: the `path[0]`-th node, then,
/// in its block, the `path[1]`-th, and so on.
pub open spec fn node_at(nodes: Seq<TriviaNode>, path: Seq<int>) -> Option<TriviaNode>
    decreases path.len(),
{
    if path.len() == 0 || !(0 <= path[0] < nodes.len()) {
        None
    } else if path.len() == 1 {
        Some(nodes[path[0]])
    } else {
        match nodes[path[0]].children {
            Some(c) => node_at(c.nodes@, path.drop_first()),
            None => None,
        }
    }
}

/// Rescuing terminator comments reaches every depth: for every node of the
/// tree, children included, a comment held in its terminator ends up at the
/// end of the trivia before the terminator, and the terminator becomes a
/// single line feed.
pub proof fn lemma_terminator_comments_rescued_at_every_depth(
    o: Seq<TriviaNode>,
    n: Seq<TriviaNode>,
    path: Seq<int>,
)
    requires
        nodes_terminator_rescued(o, n),
        node_at(o, path) is Some,
    ensures
        node_at(n, path) is Some,
        match (node_at(o, path)->0.format, node_at(n, path)->0.format) {
            (Some(of), Some(nf)) => has_comment(of.terminator@) ==> {
                &&& nf.before_terminator@ == of.before_terminator@ + terminator_comment(
                    of.terminator@,
                )
                &&& nf.terminator@ == seq!['\n']
            },
            (None, None) => true,
            _ => false,
        },
    decreases path.len(),
{
    let k = path[0];
    assert(node_terminator_rescued(o[k], n[k]));
    if path.len() > 1 {
        let oc = o[k].children->0;
        let nc = n[k].children->0;
        lemma_terminator_comments_rescued_at_every_depth(oc.nodes@, nc.nodes@, path.drop_first());
    }
}

/// Blank lines before comments go only to nodes that hold a comment: a node
/// that does not follow a node with children, and whose leading trivia has
/// no comment, gets its leading trivia as the trivia rewriter alone makes
/// it, with no line feeds put in front.
pub proof fn lemma_no_blank_lines_without_comment(
    o: TriviaDoc,
    n: TriviaDoc,
    cfg: KdlFmtConfig,
    depth: nat,
    emptied: bool,
    i: int,
)
    requires
        doc_formatted(o, n, cfg, depth, emptied),
        0 <= i < o.nodes@.len(),
        i == 0 || o.nodes@[i - 1].children is None,
        o.nodes@[i].format matches Some(of) && !has_comment(of.leading@),
    ensures
        n.nodes@[i].format matches Some(nf) && nf.leading@ == processed(
            cfg,
            repeat(cfg.indent@, depth),
            false,
            o.nodes@[i].format->0.leading@,
        ),
{
    assert(node_formatted(
        o.nodes@[i],
        n.nodes@[i],
        cfg,
        depth,
        i > 0 && o.nodes@[i - 1].children is Some,
        i > 0,
        max_name_len(o.nodes@),
    ));
}

/// Two nodes with the same structure: name length, entries (and which of
/// them have formatting), formatting present or not, and children of the
/// same shape.
pub open spec fn same_node_shape(a: TriviaNode, b: TriviaNode) -> bool
    decreases a,
{
    &&& a.name_len == b.name_len
    &&& a.entries.len() == b.entries.len()
    &&& forall|k: int|
        0 <= k < a.entries.len() ==> (#[trigger] a.entries@[k] is Some) == (b.entries@[k] is Some)
    &&& (a.format is Some) == (b.format is Some)
    &&& match (a.children, b.children) {
        (None, None) => true,
        (Some(ac), Some(bc)) => same_doc_shape(ac, bc),
        _ => false,
    }
}

/// Two documents with the same structure: formatting present or not, and
/// nodes of the same shape, in order.
pub open spec fn same_doc_shape(a: TriviaDoc, b: TriviaDoc) -> bool
    decreases a,
{
    &&& (a.format is Some) == (b.format is Some)
    &&& a.nodes.len() == b.nodes.len()
    &&& forall|i: int| 0 <= i < a.nodes.len() ==> same_node_shape(#[trigger] a.nodes@[i], b.nodes@[i])
}

proof fn lemma_node_formatting_keeps_shape(
    o: TriviaNode,
    n: TriviaNode,
    cfg: KdlFmtConfig,
    depth: nat,
    after_block: bool,
    not_first: bool,
    max_len: nat,
)
    requires
        node_formatted(o, n, cfg, depth, after_block, not_first, max_len),
    ensures
        same_node_shape(o, n),
    decreases o, 0nat,
{
    assert forall|k: int| 0 <= k < o.entries.len() implies (#[trigger] o.entries@[k] is Some) == (
    n.entries@[k] is Some) by {
        assert(entry_formatted(
            o.entries@[k],
            n.entries@[k],
            cfg,
            repeat(cfg.indent@, depth),
            k == 0 && cfg.justify_first_property,
            max_len,
            o.name_len as nat,
        ));
    }
    match (o.children, n.children) {
        (Some(oc), Some(nc)) => {
            assert(decreases_to!(o => o.children));
            lemma_formatting_keeps_shape(
                oc,
                nc,
                cfg,
                depth + 1,
                cfg.collapse_empty_blocks && oc.nodes.len() == 0,
            );
        },
        _ => {},
    }
}

/// Formatting changes trivia only: the formatted document has the shape of
/// the input document, down to every node's name, entries and children.
pub proof fn lemma_formatting_keeps_shape(
    o: TriviaDoc,
    n: TriviaDoc,
    cfg: KdlFmtConfig,
    depth: nat,
    emptied: bool,
)
    requires
        doc_formatted(o, n, cfg, depth, emptied),
    ensures
        same_doc_shape(o, n),
    decreases o, 1nat,
{
    assert forall|i: int| 0 <= i < o.nodes.len() implies same_node_shape(
        #[trigger] o.nodes@[i],
        n.nodes@[i],
    ) by {
        assert(decreases_to!(o => o.nodes));
        assert(decreases_to!(o.nodes => o.nodes@));
        assert(decreases_to!(o.nodes@ => o.nodes@[i]));
        lemma_node_formatting_keeps_shape(
            o.nodes@[i],
            n.nodes@[i],
            cfg,
            depth,
            i > 0 && o.nodes@[i - 1].children is Some,
            i > 0,
            max_name_len(o.nodes@),
        );
    }
}

proof fn lemma_max_name_len_bounds(nodes: Seq<TriviaNode>, i: int)
    requires
        0 <= i < nodes.len(),
    ensures
        nodes[i].name_len <= max_name_len(nodes),
    decreases nodes.len(),
{
    if i < nodes.len() - 1 {
        lemma_max_name_len_bounds(nodes.drop_last(), i);
    }
}

/// With property justification on, the first entries of a group line up:
/// for every node whose first entry has formatting without a comment before
/// it, the name and the spaces before the entry together take one column
/// more than the group's longest name.
pub proof fn lemma_first_properties_aligned(
    o: TriviaDoc,
    n: TriviaDoc,
    cfg: KdlFmtConfig,
    depth: nat,
    emptied: bool,
)
    requires
        doc_formatted(o, n, cfg, depth, emptied),
        cfg.justify_first_property,
    ensures
        forall|i: int|
            0 <= i < o.nodes.len() && #[trigger] o.nodes@[i].entries.len() > 0
                && o.nodes@[i].entries@[0] is Some && !has_comment(
                o.nodes@[i].entries@[0]->0.leading@,
            ) ==> n.nodes@[i].name_len + n.nodes@[i].entries@[0]->0.leading@.len()
                == max_name_len(o.nodes@) + 1,
{
    assert forall|i: int|
        0 <= i < o.nodes.len() && #[trigger] o.nodes@[i].entries.len() > 0
            && o.nodes@[i].entries@[0] is Some && !has_comment(
            o.nodes@[i].entries@[0]->0.leading@,
        ) implies n.nodes@[i].name_len + n.nodes@[i].entries@[0]->0.leading@.len()
        == max_name_len(o.nodes@) + 1 by {
        let on = o.nodes@[i];
        let nn = n.nodes@[i];
        assert(node_formatted(
            on,
            nn,
            cfg,
            depth,
            i > 0 && o.nodes@[i - 1].children is Some,
            i > 0,
            max_name_len(o.nodes@),
        ));
        assert(entry_formatted(
            on.entries@[0],
            nn.entries@[0],
            cfg,
            repeat(cfg.indent@, depth),
            true,
            max_name_len(o.nodes@),
            on.name_len as nat,
        ));
        lemma_max_name_len_bounds(o.nodes@, i);
    }
}

/// With `newlines_after_close` set at a depth, every node there that
/// follows a node with children begins with that many blank lines (unless
/// its own leading trivia rewrites to nothing, as a stripped empty block
/// comment does, which the blank lines then replace).
pub proof fn lemma_blank_lines_after_blocks(
    o: TriviaDoc,
    n: TriviaDoc,
    cfg: KdlFmtConfig,
    depth: nat,
    emptied: bool,
)
    requires
        doc_formatted(o, n, cfg, depth, emptied),
        depth < 5,
    ensures
        forall|i: int|
            0 < i < o.nodes.len() && o.nodes@[i - 1].children is Some
                && #[trigger] o.nodes@[i].format is Some && ({
                let l = o.nodes@[i].format->0.leading@;
                l.len() == 0 || processed(cfg, repeat(cfg.indent@, depth), false, l).len() > 0
            }) ==> starts_with(
                n.nodes@[i].format->0.leading@,
                newlines(cfg.newlines_after_close@[depth as int]),
            ),
{
    assert forall|i: int|
        0 < i < o.nodes.len() && o.nodes@[i - 1].children is Some
            && #[trigger] o.nodes@[i].format is Some && ({
            let l = o.nodes@[i].format->0.leading@;
            l.len() == 0 || processed(cfg, repeat(cfg.indent@, depth), false, l).len() > 0
        }) implies starts_with(
        n.nodes@[i].format->0.leading@,
        newlines(cfg.newlines_after_close@[depth as int]),
    ) by {
        let indent = repeat(cfg.indent@, depth);
        let on = o.nodes@[i];
        let nn = n.nodes@[i];
        assert(node_formatted(on, nn, cfg, depth, true, true, max_name_len(o.nodes@)));
        let l = on.format->0.leading@;
        let a = cfg.newlines_after_close@[depth as int];
        let b = cfg.newlines_before_comments@[depth as int];
        let l1 = if a > 0 {
            newlines(a) + l
        } else {
            l
        };
        let total: nat = if b > 0 && has_comment(l1) {
            b as nat + a as nat
        } else {
            a as nat
        };
        assert(leading_with_blank_lines(l, cfg, depth, true, true) =~= line_feeds(total) + l);
        lemma_leading_line_feeds_kept(cfg, indent, false, total, l);
        let out = nn.format->0.leading@;
        assert(out == line_feeds(total) + processed(cfg, indent, false, l));
        assert(out.take(a as int) =~= newlines(a));
    }
}

/// With `newlines_before_comments` set at a depth, every node there but
/// the first whose leading trivia holds a comment begins with that many
/// blank lines (unless that trivia rewrites to nothing).
pub proof fn lemma_blank_lines_before_comments(
    o: TriviaDoc,
    n: TriviaDoc,
    cfg: KdlFmtConfig,
    depth: nat,
    emptied: bool,
)
    requires
        doc_formatted(o, n, cfg, depth, emptied),
        depth < 5,
    ensures
        forall|i: int|
            0 < i < o.nodes.len() && #[trigger] o.nodes@[i].format is Some && has_comment(
                o.nodes@[i].format->0.leading@,
            ) && processed(
                cfg,
                repeat(cfg.indent@, depth),
                false,
                o.nodes@[i].format->0.leading@,
            ).len() > 0 ==> starts_with(
                n.nodes@[i].format->0.leading@,
                newlines(cfg.newlines_before_comments@[depth as int]),
            ),
{
    assert forall|i: int|
        0 < i < o.nodes.len() && #[trigger] o.nodes@[i].format is Some && has_comment(
            o.nodes@[i].format->0.leading@,
        ) && processed(
            cfg,
            repeat(cfg.indent@, depth),
            false,
            o.nodes@[i].format->0.leading@,
        ).len() > 0 implies starts_with(
        n.nodes@[i].format->0.leading@,
        newlines(cfg.newlines_before_comments@[depth as int]),
    ) by {
        let indent = repeat(cfg.indent@, depth);
        let on = o.nodes@[i];
        let after = o.nodes@[i - 1].children is Some;
        let nn = n.nodes@[i];
        assert(node_formatted(on, nn, cfg, depth, after, true, max_name_len(o.nodes@)));
        let l = on.format->0.leading@;
        let a = cfg.newlines_after_close@[depth as int];
        let b = cfg.newlines_before_comments@[depth as int];
        let l1 = if after && a > 0 {
            newlines(a) + l
        } else {
            l
        };
        if b > 0 {
            assert(has_comment(l1)) by {
                lemma_comment_after_line_feeds(if after && a > 0 { a as nat } else { 0 }, l);
                assert(l1 =~= line_feeds(if after && a > 0 { a as nat } else { 0 }) + l);
            }
        }
        let total: nat = (if b > 0 { b as nat } else { 0 }) + (if after && a > 0 {
            a as nat
        } else {
            0
        });
        assert(leading_with_blank_lines(l, cfg, depth, after, true) =~= line_feeds(total) + l);
        lemma_leading_line_feeds_kept(cfg, indent, false, total, l);
        let out = nn.format->0.leading@;
        assert(out == line_feeds(total) + processed(cfg, indent, false, l));
        assert(out.take(b as int) =~= newlines(b));
    }
}

/// Line feeds in front of text do not hide a comment in it.
proof fn lemma_comment_after_line_feeds(n: nat, l: Seq<char>)
    requires
        has_comment(l),
    ensures
        has_comment(line_feeds(n) + l),
{
    let x = line_feeds(n) + l;
    if contains(l, line_marker()) {
        lemma_find_shift(l, line_marker(), n);
    } else {
        lemma_find_shift(l, open_marker(), n);
    }
}

/// A match in `l` is a match in `l` with text in front.
proof fn lemma_find_shift(l: Seq<char>, p: Seq<char>, n: nat)
    requires
        find(l, p) is Some,
    ensures
        find(line_feeds(n) + l, p) is Some,
{
    let k = find(l, p)->0;
    lemma_find_bounds(l, p, 0);
    let x = line_feeds(n) + l;
    assert(x.subrange(n + k, n + k + p.len()) =~= l.subrange(k, k + p.len()));
    lemma_find_from_reaches(x, p, 0, n + k);
}

/// `find_from` from `i` finds something when `p` occurs at or after `i`.
proof fn lemma_find_from_reaches(s: Seq<char>, p: Seq<char>, i: int, m: int)
    requires
        0 <= i <= m,
        m + p.len() <= s.len(),
        s.subrange(m, m + p.len()) == p,
    ensures
        find_from(s, p, i) is Some,
    decreases m - i,
{
    if s.subrange(i, i + p.len()) != p {
        lemma_find_from_reaches(s, p, i + 1, m);
    }
}

} // verus!
