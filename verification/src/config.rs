//! The formatter's configuration: its fields, defaults, the keys of the
//! `kdlfmt.kdl` file, and how the file and an `.editorconfig` set them.

use vstd::prelude::*;

use crate::error::{digit, FmtError};
use crate::format::{parse_error, parse_kdl};
use crate::kdl_bridge::{
    config_nodes_read, default_format_indent, kdl_parsed_v1, kdl_parsed_v2, kdl_v1_accepts,
    kdl_v2_accepts, read_config_nodes,
};
use crate::text::{chars_of, same_chars, string_of};

verus! {

/// Formatting options.
#[derive(Debug, Clone)]
pub struct KdlFmtConfig {
    /// Whether some setting came from a `kdlfmt.kdl` file, which then takes
    /// precedence over an `.editorconfig`.
    pub from_kdlfmt_file: bool,
    pub indent: String,
    pub use_tabs: bool,
    /// Extra blank lines before comment-bearing nodes at each depth.
    /// Index 0 = level1 (top-level), index 4 = level5.
    pub newlines_before_comments: [u32; 5],
    pub justify_first_property: bool,
    /// Extra blank lines after the closing `}` of block nodes at each depth.
    /// Index 0 = level1 (top-level), index 4 = level5.
    pub newlines_after_close: [u32; 5],
    /// Convert runs of N or more consecutive `//` comment lines to `/* */` blocks.
    pub n_comment_lines_to_multiline: Option<u32>,
    /// Strip blank lines immediately before the closing `}` of every block.
    pub remove_trailing_blank_lines_in_blocks: bool,
    /// Collapse blocks with no child nodes to inline `{}`.
    pub collapse_empty_blocks: bool,
    /// Remove `/* */` block comments whose content is entirely blank/whitespace.
    pub strip_empty_block_comments: bool,
    /// Convert single-line `/* content */` block comments to `// content`.
    pub normalize_single_line_block_comments: bool,
}

/// `n` copies of the indentation character: a tab or a space.
pub open spec fn indent_of(n: nat, use_tabs: bool) -> Seq<char> {
    Seq::new(n, |i: int| if use_tabs { '\t' } else { ' ' })
}

/// The default configuration: `kdl`'s default indentation of four spaces,
/// and every optional rule switched off.
pub open spec fn is_default_config(c: KdlFmtConfig) -> bool {
    &&& !c.from_kdlfmt_file
    &&& c.indent@ == seq![' ', ' ', ' ', ' ']
    &&& !c.use_tabs
    &&& c.newlines_before_comments@ == seq![0u32, 0, 0, 0, 0]
    &&& !c.justify_first_property
    &&& c.newlines_after_close@ == seq![0u32, 0, 0, 0, 0]
    &&& c.n_comment_lines_to_multiline is None
    &&& !c.remove_trailing_blank_lines_in_blocks
    &&& !c.collapse_empty_blocks
    &&& !c.strip_empty_block_comments
    &&& !c.normalize_single_line_block_comments
}

impl Default for KdlFmtConfig {
    fn default() -> (c: Self)
        ensures
            is_default_config(c),
    {
        let c = KdlFmtConfig {
            from_kdlfmt_file: false,
            indent: default_format_indent(),
            use_tabs: false,
            newlines_before_comments: [0; 5],
            justify_first_property: false,
            newlines_after_close: [0; 5],
            n_comment_lines_to_multiline: None,
            remove_trailing_blank_lines_in_blocks: false,
            collapse_empty_blocks: false,
            strip_empty_block_comments: false,
            normalize_single_line_block_comments: false,
        };
        assert(c.newlines_before_comments@ =~= seq![0u32, 0, 0, 0, 0]);
        assert(c.newlines_after_close@ =~= seq![0u32, 0, 0, 0, 0]);
        c
    }
}

impl KdlFmtConfig {
    /// The name of the configuration file.
    pub fn filename() -> (r: &'static str)
        ensures
            r@ == "kdlfmt.kdl"@,
    {
        "kdlfmt.kdl"
    }

    /// A string of `indent` tabs when `use_tabs`, else of `indent` spaces.
    pub fn get_indent(indent: usize, use_tabs: bool) -> (r: String)
        ensures
            r@ == indent_of(indent as nat, use_tabs),
    {
        let c = if use_tabs {
            '\t'
        } else {
            ' '
        };
        let mut spaces: Vec<char> = Vec::new();
        let mut i: usize = 0;
        while i < indent
            invariant
                i <= indent,
                c == (if use_tabs { '\t' } else { ' ' }),
                spaces@ == indent_of(i as nat, use_tabs),
            decreases indent - i,
        {
            spaces.push(c);
            i = i + 1;
            assert(spaces@ =~= indent_of(i as nat, use_tabs));
        }
        string_of(spaces.as_slice())
    }

    /// Key of the indentation width.
    pub fn indent_size_key() -> (r: &'static str)
        ensures
            r@ == "indent_size"@,
    {
        "indent_size"
    }

    /// Key of the tab switch.
    pub fn use_tabs_key() -> (r: &'static str)
        ensures
            r@ == "use_tabs"@,
    {
        "use_tabs"
    }

    /// Key of the blank lines before comments.
    pub fn newlines_before_comments_key() -> (r: &'static str)
        ensures
            r@ == "newlines_before_comments"@,
    {
        "newlines_before_comments"
    }

    /// Key of the first-property justification switch.
    pub fn justify_first_property_key() -> (r: &'static str)
        ensures
            r@ == "justify_first_property"@,
    {
        "justify_first_property"
    }

    /// Key of the blank lines after a closing brace.
    pub fn newlines_after_close_key() -> (r: &'static str)
        ensures
            r@ == "newlines_after_close"@,
    {
        "newlines_after_close"
    }

    /// Key of the comment-run threshold.
    pub fn n_comment_lines_to_multiline_key() -> (r: &'static str)
        ensures
            r@ == "n_comment_lines_to_multiline"@,
    {
        "n_comment_lines_to_multiline"
    }

    /// Key of the trailing-blank-line switch.
    pub fn remove_trailing_blank_lines_key() -> (r: &'static str)
        ensures
            r@ == "remove_trailing_blank_lines_in_blocks"@,
    {
        "remove_trailing_blank_lines_in_blocks"
    }

    /// Key of the empty-block switch.
    pub fn collapse_empty_blocks_key() -> (r: &'static str)
        ensures
            r@ == "collapse_empty_blocks"@,
    {
        "collapse_empty_blocks"
    }

    /// Key of the empty-block-comment switch.
    pub fn strip_empty_block_comments_key() -> (r: &'static str)
        ensures
            r@ == "strip_empty_block_comments"@,
    {
        "strip_empty_block_comments"
    }

    /// Key of the single-line-block-comment switch.
    pub fn normalize_single_line_block_comments_key() -> (r: &'static str)
        ensures
            r@ == "normalize_single_line_block_comments"@,
    {
        "normalize_single_line_block_comments"
    }

    /// The `kdl` autoformat settings that this configuration implies: its
    /// indentation, everything else at `kdl`'s defaults.
    /// Trusted: what `FormatConfig::builder().indent(..).build()` makes
    /// depends on the indentation alone.
    #[verifier::external_body]
    pub fn get_formatter_config(&self) -> (r: kdl::FormatConfig<'_>)
        ensures
            r == kdl_format_config(self.indent@),
    {
        kdl::FormatConfig::builder().indent(&self.indent).build()
    }
}

/// The document a configuration text is read as: KDL v2 when the v2 parser
/// accepts it, else KDL v1.
pub open spec fn config_document(text: Seq<char>) -> kdl::KdlDocument {
    if kdl_v2_accepts(text) {
        kdl_parsed_v2(text)
    } else {
        kdl_parsed_v1(text)
    }
}

/// The settings that `FormatConfig::builder().indent(indent).build()` makes.
pub uninterp spec fn kdl_format_config(indent: Seq<char>) -> kdl::FormatConfig<'static>;

/// The first argument of a configuration node, as far as the configuration
/// reads it: absent, or a value of one of KDL's kinds (with the integer and
/// boolean payloads the options use).
#[derive(PartialEq, Eq, Structural)]
pub enum ArgValue {
    Absent,
    Str,
    Integer(i128),
    Float,
    Bool(bool),
    Null,
}

impl ArgValue {
    /// Whether the value is an integer.
    pub fn is_integer(&self) -> (r: bool)
        ensures
            r == (*self is Integer),
    {
        match self {
            ArgValue::Integer(_) => true,
            _ => false,
        }
    }
}

/// A node of a configuration block: its name and first argument.
pub struct ConfigEntry {
    pub name: Vec<char>,
    pub arg: ArgValue,
}

/// A top-level node of a configuration document: its name, its first
/// argument, and the nodes of its block, if it has one.
pub struct ConfigNode {
    pub name: Vec<char>,
    pub arg: ArgValue,
    pub children: Option<Vec<ConfigEntry>>,
}

/// The first node named `key`, as `KdlDocument::get` finds it.
pub open spec fn first_named(nodes: Seq<ConfigNode>, key: Seq<char>) -> Option<ConfigNode>
    decreases nodes.len(),
{
    if nodes.len() == 0 {
        None
    } else if nodes[0].name@ == key {
        Some(nodes[0])
    } else {
        first_named(nodes.drop_first(), key)
    }
}

/// The first argument of the first node named `key`, as
/// `KdlDocument::get_arg` finds it.
pub open spec fn arg_named(nodes: Seq<ConfigNode>, key: Seq<char>) -> ArgValue {
    match first_named(nodes, key) {
        Some(n) => n.arg,
        None => ArgValue::Absent,
    }
}

/// The first argument of the first block entry named `key`.
pub open spec fn entry_arg_named(entries: Seq<ConfigEntry>, key: Seq<char>) -> ArgValue
    decreases entries.len(),
{
    if entries.len() == 0 {
        ArgValue::Absent
    } else if entries[0].name@ == key {
        entries[0].arg
    } else {
        entry_arg_named(entries.drop_first(), key)
    }
}

/// `true` exactly for the boolean `#true`.
pub open spec fn is_true(a: ArgValue) -> bool {
    a == ArgValue::Bool(true)
}

/// The integer payload, if any.
pub open spec fn integer_of(a: ArgValue) -> Option<i128> {
    match a {
        ArgValue::Integer(n) => Some(n),
        _ => None,
    }
}

/// `level1` to `level5`.
pub open spec fn level_key(i: nat) -> Seq<char> {
    seq!['l', 'e', 'v', 'e', 'l', digit(i)]
}

/// The integer given for `level{i}` in the block of the node named
/// `block_key`, if any.
pub open spec fn level_setting(nodes: Seq<ConfigNode>, block_key: Seq<char>, i: nat) -> Option<
    i128,
> {
    match first_named(nodes, block_key) {
        Some(n) => match n.children {
            Some(ch) => integer_of(entry_arg_named(ch@, level_key(i))),
            None => None,
        },
        None => None,
    }
}

/// Blank lines before comments at a level: the setting, at least 0.
pub open spec fn before_comments_lines(n: i128) -> u32 {
    (if n < 0 {
        0
    } else {
        n
    }) as u32
}

/// Blank lines after a block at a level: the setting, between 0 and 10.
pub open spec fn after_close_lines(n: i128) -> u32 {
    (if n < 0 {
        0
    } else if n > 10 {
        10
    } else {
        n
    }) as u32
}

/// The comment-run threshold: the setting, at least 2.
pub open spec fn comment_run_threshold(n: i128) -> u32 {
    (if n < 2 {
        2
    } else {
        n
    }) as u32
}

/// The indentation width: the setting, at least 1.
pub open spec fn indent_width(n: i128) -> usize {
    (if n < 1 {
        1
    } else {
        n
    }) as usize
}

/// Whether the configuration document sets the option of `key` to `#true`.
pub open spec fn flag_set(nodes: Seq<ConfigNode>, key: Seq<char>) -> bool {
    is_true(arg_named(nodes, key))
}

/// `c` is the default configuration with the options that `nodes` (the
/// nodes of a `kdlfmt.kdl` document) set. A switch is set by `#true`;
/// `indent_size` takes an integer (at least 1) and counts tabs when
/// `use_tabs` is set; the `newlines_*` blocks take integers per level
/// (`level1` to `level5`); `n_comment_lines_to_multiline` takes an integer
/// (at least 2). Other values leave an option at its default. The result
/// records whether any option was set.
pub open spec fn configured_by(nodes: Seq<ConfigNode>, c: KdlFmtConfig) -> bool {
    let tabs = flag_set(nodes, "use_tabs"@);
    let size = integer_of(arg_named(nodes, "indent_size"@));
    let nclm = integer_of(arg_named(nodes, "n_comment_lines_to_multiline"@));
    &&& c.use_tabs == tabs
    &&& c.indent@ == match size {
        Some(n) => indent_of(indent_width(n) as nat, tabs),
        None => if tabs {
            indent_of(1, true)
        } else {
            seq![' ', ' ', ' ', ' ']
        },
    }
    &&& forall|i: int|
        0 <= i < 5 ==> #[trigger] c.newlines_before_comments@[i] == match level_setting(
            nodes,
            "newlines_before_comments"@,
            (i + 1) as nat,
        ) {
            Some(n) => before_comments_lines(n),
            None => 0,
        }
    &&& c.justify_first_property == flag_set(nodes, "justify_first_property"@)
    &&& forall|i: int|
        0 <= i < 5 ==> #[trigger] c.newlines_after_close@[i] == match level_setting(
            nodes,
            "newlines_after_close"@,
            (i + 1) as nat,
        ) {
            Some(n) => after_close_lines(n),
            None => 0,
        }
    &&& c.n_comment_lines_to_multiline == match nclm {
        Some(n) => Some(comment_run_threshold(n)),
        None => None,
    }
    &&& c.remove_trailing_blank_lines_in_blocks == flag_set(
        nodes,
        "remove_trailing_blank_lines_in_blocks"@,
    )
    &&& c.collapse_empty_blocks == flag_set(nodes, "collapse_empty_blocks"@)
    &&& c.strip_empty_block_comments == flag_set(nodes, "strip_empty_block_comments"@)
    &&& c.normalize_single_line_block_comments == flag_set(
        nodes,
        "normalize_single_line_block_comments"@,
    )
    &&& c.from_kdlfmt_file == (tabs || size is Some || (exists|i: int|
        1 <= i <= 5 && #[trigger] level_setting(nodes, "newlines_before_comments"@, i as nat)
            is Some) || flag_set(nodes, "justify_first_property"@) || (exists|i: int|
        1 <= i <= 5 && #[trigger] level_setting(nodes, "newlines_after_close"@, i as nat) is Some)
        || nclm is Some || flag_set(nodes, "remove_trailing_blank_lines_in_blocks"@) || flag_set(
        nodes,
        "collapse_empty_blocks"@,
    ) || flag_set(nodes, "strip_empty_block_comments"@) || flag_set(
        nodes,
        "normalize_single_line_block_comments"@,
    ))
}

/// The comment-run threshold is taken as given when it is at least 2, and
/// is 2 for smaller settings: a configuration read from nodes that set
/// `n_comment_lines_to_multiline` to `n` merges runs of `max(n, 2)` line
/// comments.
pub proof fn lemma_comment_run_threshold_as_given(nodes: Seq<ConfigNode>, c: KdlFmtConfig, n: i128)
    requires
        configured_by(nodes, c),
        integer_of(arg_named(nodes, "n_comment_lines_to_multiline"@)) == Some(n),
        n <= u32::MAX,
    ensures
        n >= 2 ==> c.n_comment_lines_to_multiline == Some(n as u32),
        n < 2 ==> c.n_comment_lines_to_multiline == Some(2u32),
{
}

/// The names of the options a `kdlfmt.kdl` document can set.
pub open spec fn is_option_key(name: Seq<char>) -> bool {
    ||| name == "indent_size"@
    ||| name == "use_tabs"@
    ||| name == "newlines_before_comments"@
    ||| name == "justify_first_property"@
    ||| name == "newlines_after_close"@
    ||| name == "n_comment_lines_to_multiline"@
    ||| name == "remove_trailing_blank_lines_in_blocks"@
    ||| name == "collapse_empty_blocks"@
    ||| name == "strip_empty_block_comments"@
    ||| name == "normalize_single_line_block_comments"@
}

proof fn lemma_first_named_absent(nodes: Seq<ConfigNode>, key: Seq<char>)
    requires
        forall|i: int| 0 <= i < nodes.len() ==> #[trigger] nodes[i].name@ != key,
    ensures
        first_named(nodes, key) is None,
    decreases nodes.len(),
{
    if nodes.len() > 0 {
        let t = nodes.drop_first();
        assert forall|i: int| 0 <= i < t.len() implies #[trigger] t[i].name@ != key by {
            assert(t[i] == nodes[i + 1]);
        }
        lemma_first_named_absent(t, key);
    }
}

/// A configuration document that names none of the options yields exactly
/// the default configuration.
pub proof fn lemma_no_options_is_default(nodes: Seq<ConfigNode>, c: KdlFmtConfig)
    requires
        configured_by(nodes, c),
        forall|i: int| 0 <= i < nodes.len() ==> !is_option_key(#[trigger] nodes[i].name@),
    ensures
        is_default_config(c),
{
    lemma_first_named_absent(nodes, "indent_size"@);
    lemma_first_named_absent(nodes, "use_tabs"@);
    lemma_first_named_absent(nodes, "newlines_before_comments"@);
    lemma_first_named_absent(nodes, "justify_first_property"@);
    lemma_first_named_absent(nodes, "newlines_after_close"@);
    lemma_first_named_absent(nodes, "n_comment_lines_to_multiline"@);
    lemma_first_named_absent(nodes, "remove_trailing_blank_lines_in_blocks"@);
    lemma_first_named_absent(nodes, "collapse_empty_blocks"@);
    lemma_first_named_absent(nodes, "strip_empty_block_comments"@);
    lemma_first_named_absent(nodes, "normalize_single_line_block_comments"@);
    assert(c.newlines_before_comments@ =~= seq![0u32, 0, 0, 0, 0]);
    assert(c.newlines_after_close@ =~= seq![0u32, 0, 0, 0, 0]);
}

/// Executable `arg_named`.
fn arg_named_vec(nodes: &Vec<ConfigNode>, key: &str) -> (r: ArgValue)
    ensures
        r == arg_named(nodes@, key@),
{
    match first_named_index(nodes, key) {
        Some(i) => copy_arg(&nodes[i].arg),
        None => ArgValue::Absent,
    }
}

/// A copy of an argument value.
fn copy_arg(a: &ArgValue) -> (r: ArgValue)
    ensures
        r == *a,
{
    match a {
        ArgValue::Absent => ArgValue::Absent,
        ArgValue::Str => ArgValue::Str,
        ArgValue::Integer(n) => ArgValue::Integer(*n),
        ArgValue::Float => ArgValue::Float,
        ArgValue::Bool(b) => ArgValue::Bool(*b),
        ArgValue::Null => ArgValue::Null,
    }
}

/// Where `first_named` finds its node.
fn first_named_index(nodes: &Vec<ConfigNode>, key: &str) -> (r: Option<usize>)
    ensures
        match r {
            Some(i) => i < nodes@.len() && first_named(nodes@, key@) == Some(nodes@[i as int]),
            None => first_named(nodes@, key@) is None,
        },
{
    let k = chars_of(key);
    let mut i: usize = 0;
    assert(nodes@.skip(0) =~= nodes@);
    while i < nodes.len()
        invariant
            i <= nodes@.len(),
            k@ == key@,
            first_named(nodes@, key@) == first_named(nodes@.skip(i as int), key@),
        decreases nodes.len() - i,
    {
        assert(nodes@.skip(i as int)[0] == nodes@[i as int]);
        if same_chars(nodes[i].name.as_slice(), k.as_slice()) {
            return Some(i);
        }
        assert(nodes@.skip(i as int).drop_first() =~= nodes@.skip(i + 1));
        i = i + 1;
    }
    assert(nodes@.skip(i as int) =~= Seq::<ConfigNode>::empty());
    None
}

/// Executable `entry_arg_named`.
fn entry_arg_named_vec(entries: &Vec<ConfigEntry>, key: &[char]) -> (r: ArgValue)
    ensures
        r == entry_arg_named(entries@, key@),
{
    let mut i: usize = 0;
    assert(entries@.skip(0) =~= entries@);
    while i < entries.len()
        invariant
            i <= entries@.len(),
            entry_arg_named(entries@, key@) == entry_arg_named(entries@.skip(i as int), key@),
        decreases entries.len() - i,
    {
        assert(entries@.skip(i as int)[0] == entries@[i as int]);
        if same_chars(entries[i].name.as_slice(), key) {
            return copy_arg(&entries[i].arg);
        }
        assert(entries@.skip(i as int).drop_first() =~= entries@.skip(i + 1));
        i = i + 1;
    }
    ArgValue::Absent
}

/// The key `level{i}`.
fn level_key_vec(i: usize) -> (r: Vec<char>)
    requires
        1 <= i <= 5,
    ensures
        r@ == level_key(i as nat),
{
    let d = if i == 1 {
        '1'
    } else if i == 2 {
        '2'
    } else if i == 3 {
        '3'
    } else if i == 4 {
        '4'
    } else {
        '5'
    };
    let r = vec!['l', 'e', 'v', 'e', 'l', d];
    assert(r@ =~= level_key(i as nat));
    r
}

/// The five per-level settings of the block named `block_key`.
fn level_settings(nodes: &Vec<ConfigNode>, block_key: &str) -> (r: Vec<Option<i128>>)
    ensures
        r@.len() == 5,
        forall|i: int|
            0 <= i < 5 ==> #[trigger] r@[i] == level_setting(nodes@, block_key@, (i + 1) as nat),
{
    let mut r: Vec<Option<i128>> = Vec::new();
    let found = first_named_index(nodes, block_key);
    let mut i: usize = 1;
    while i <= 5
        invariant
            1 <= i <= 6,
            r@.len() == i - 1,
            match found {
                Some(j) => j < nodes@.len() && first_named(nodes@, block_key@) == Some(
                    nodes@[j as int],
                ),
                None => first_named(nodes@, block_key@) is None,
            },
            forall|j: int|
                0 <= j < i - 1 ==> #[trigger] r@[j] == level_setting(
                    nodes@,
                    block_key@,
                    (j + 1) as nat,
                ),
        decreases 6 - i,
    {
        let key = level_key_vec(i);
        let v = match found {
            Some(j) => match &nodes[j].children {
                Some(ch) => match entry_arg_named_vec(ch, key.as_slice()) {
                    ArgValue::Integer(n) => Some(n),
                    _ => None,
                },
                None => None,
            },
            None => None,
        };
        r.push(v);
        i = i + 1;
    }
    r
}

/// The per-level blank-line counts of five settings, and whether any of
/// them is given.
fn level_lines(settings: &Vec<Option<i128>>, after_close: bool) -> (r: ([u32; 5], bool))
    requires
        settings@.len() == 5,
    ensures
        forall|i: int|
            0 <= i < 5 ==> #[trigger] r.0@[i] == match settings@[i] {
                Some(n) => if after_close {
                    after_close_lines(n)
                } else {
                    before_comments_lines(n)
                },
                None => 0,
            },
        r.1 == exists|j: int| 0 <= j < 5 && #[trigger] settings@[j] is Some,
{
    let mut arr: [u32; 5] = [0; 5];
    let mut any = false;
    let mut i: usize = 0;
    while i < 5
        invariant
            i <= 5,
            settings@.len() == 5,
            arr@.len() == 5,
            forall|j: int|
                0 <= j < i ==> #[trigger] arr@[j] == match settings@[j] {
                    Some(n) => if after_close {
                        after_close_lines(n)
                    } else {
                        before_comments_lines(n)
                    },
                    None => 0,
                },
            forall|j: int| i <= j < 5 ==> #[trigger] arr@[j] == 0,
            any == exists|j: int| 0 <= j < i && #[trigger] settings@[j] is Some,
        decreases 5 - i,
    {
        if let Some(n) = settings[i] {
            let v: i128 = if after_close {
                if n < 0 {
                    0
                } else if n > 10 {
                    10
                } else {
                    n
                }
            } else if n < 0 {
                0
            } else {
                n
            };
            arr[i] = #[verifier::truncate] (v as u32);
            any = true;
        }
        i = i + 1;
    }
    (arr, any)
}

/// Whether the argument is the boolean `#true`.
fn is_true_arg(a: &ArgValue) -> (r: bool)
    ensures
        r == is_true(*a),
{
    match a {
        ArgValue::Bool(b) => *b,
        _ => false,
    }
}

impl KdlFmtConfig {
    /// The configuration that the nodes of a `kdlfmt.kdl` document set,
    /// over the defaults.
    pub fn from_config_nodes(nodes: &Vec<ConfigNode>) -> (c: Self)
        ensures
            configured_by(nodes@, c),
    {
        let tabs = is_true_arg(&arg_named_vec(nodes, Self::use_tabs_key()));
        let size = arg_named_vec(nodes, Self::indent_size_key());
        let indent = match size {
            ArgValue::Integer(n) => {
                let width: i128 = if n < 1 {
                    1
                } else {
                    n
                };
                Self::get_indent(#[verifier::truncate] (width as usize), tabs)
            },
            _ => if tabs {
                Self::get_indent(1, true)
            } else {
                default_format_indent()
            },
        };
        let before = level_settings(nodes, Self::newlines_before_comments_key());
        let (before_lines, any_before) = level_lines(&before, false);
        let justify = is_true_arg(&arg_named_vec(nodes, Self::justify_first_property_key()));
        let after = level_settings(nodes, Self::newlines_after_close_key());
        let (after_lines, any_after) = level_lines(&after, true);
        let nclm = match arg_named_vec(nodes, Self::n_comment_lines_to_multiline_key()) {
            ArgValue::Integer(n) => {
                let v: i128 = if n < 2 {
                    2
                } else {
                    n
                };
                Some(#[verifier::truncate] (v as u32))
            },
            _ => None,
        };
        let remove = is_true_arg(&arg_named_vec(nodes, Self::remove_trailing_blank_lines_key()));
        let collapse = is_true_arg(&arg_named_vec(nodes, Self::collapse_empty_blocks_key()));
        let strip = is_true_arg(&arg_named_vec(nodes, Self::strip_empty_block_comments_key()));
        let normalize = is_true_arg(
            &arg_named_vec(nodes, Self::normalize_single_line_block_comments_key()),
        );
        let from_file = tabs || size.is_integer() || any_before || justify || any_after
            || nclm.is_some() || remove || collapse || strip || normalize;
        proof {
            assert(any_before == (exists|i: int|
                1 <= i <= 5 && #[trigger] level_setting(
                    nodes@,
                    "newlines_before_comments"@,
                    i as nat,
                ) is Some)) by {
                if any_before {
                    let j = choose|j: int| 0 <= j < 5 && #[trigger] before@[j] is Some;
                    assert(level_setting(nodes@, "newlines_before_comments"@, (j + 1) as nat)
                        is Some);
                }
                if exists|i: int|
                    1 <= i <= 5 && #[trigger] level_setting(
                        nodes@,
                        "newlines_before_comments"@,
                        i as nat,
                    ) is Some {
                    let i = choose|i: int|
                        1 <= i <= 5 && #[trigger] level_setting(
                            nodes@,
                            "newlines_before_comments"@,
                            i as nat,
                        ) is Some;
                    assert(before@[i - 1] is Some);
                }
            }
            assert(any_after == (exists|i: int|
                1 <= i <= 5 && #[trigger] level_setting(nodes@, "newlines_after_close"@, i as nat)
                    is Some)) by {
                if any_after {
                    let j = choose|j: int| 0 <= j < 5 && #[trigger] after@[j] is Some;
                    assert(level_setting(nodes@, "newlines_after_close"@, (j + 1) as nat) is Some);
                }
                if exists|i: int|
                    1 <= i <= 5 && #[trigger] level_setting(
                        nodes@,
                        "newlines_after_close"@,
                        i as nat,
                    ) is Some {
                    let i = choose|i: int|
                        1 <= i <= 5 && #[trigger] level_setting(
                            nodes@,
                            "newlines_after_close"@,
                            i as nat,
                        ) is Some;
                    assert(after@[i - 1] is Some);
                }
            }
        }
        KdlFmtConfig {
            from_kdlfmt_file: from_file,
            indent,
            use_tabs: tabs,
            newlines_before_comments: before_lines,
            justify_first_property: justify,
            newlines_after_close: after_lines,
            n_comment_lines_to_multiline: nclm,
            remove_trailing_blank_lines_in_blocks: remove,
            collapse_empty_blocks: collapse,
            strip_empty_block_comments: strip,
            normalize_single_line_block_comments: normalize,
        }
    }

    /// Reads a `kdlfmt.kdl` document from its text: the defaults with the
    /// options that the nodes of the parsed document set. Fails exactly when
    /// the text is KDL of neither version.
    pub fn load_from_str(config: &str) -> (r: Result<Self, FmtError>)
        ensures
            r is Ok <==> (kdl_v2_accepts(config@) || kdl_v1_accepts(config@)),
            r matches Err(e) ==> e == FmtError::Parse(parse_error(None, config@)),
            r matches Ok(c) ==> exists|nodes: Seq<ConfigNode>|
                config_nodes_read(config_document(config@), nodes) && configured_by(nodes, c),
    {
        let (doc, _version) = parse_kdl(config, None, true)?;
        let nodes = read_config_nodes(&doc);
        let c = Self::from_config_nodes(&nodes);
        assert(config_nodes_read(config_document(config@), nodes@) && configured_by(nodes@, c));
        Ok(c)
    }
}

} // verus!
