//! Rewriting of trivia strings (the whitespace and comments around nodes and
//! entries): comment linting, re-indentation, and the optional comment rules.
//!
//! A trivia string is cut into lines, the lines are rewritten one rule at a
//! time by a small state machine (inside or outside a `/* */` comment), and
//! the rewritten lines are joined again.

use vstd::prelude::*;

use crate::config::KdlFmtConfig;
use crate::text::{
    chars_of, is_ws, lead_ws, lemma_lead_ws_bounds, concat, contains, contains_vec, find, find_from, find_vec, join_lines, join_lines_vec,
    push_all, repeat, repeat_vec, seqs_view, slice_vec, split_lines, split_lines_vec, starts_with,
    starts_with_vec, trim, trim_start, trim_start_vec, trim_vec, upper_chars, uppercase_of,
};

verus! {

/// `//`
pub open spec fn line_marker() -> Seq<char> {
    seq!['/', '/']
}

/// `/*`
pub open spec fn open_marker() -> Seq<char> {
    seq!['/', '*']
}

/// `*/`
pub open spec fn close_marker() -> Seq<char> {
    seq!['*', '/']
}

/// `/-`
pub open spec fn slashdash_marker() -> Seq<char> {
    seq!['/', '-']
}

/// Whether trivia holds a comment: a `//` or a `/*` anywhere in it.
pub open spec fn has_comment(s: Seq<char>) -> bool {
    contains(s, line_marker()) || contains(s, open_marker())
}

/// The text with its first character upper-cased.
pub open spec fn capitalized(s: Seq<char>) -> Seq<char> {
    if s.len() == 0 {
        s
    } else {
        uppercase_of(s[0]) + s.drop_first()
    }
}

/// A line comment with the given content: `//` alone when the content is
/// empty, else `// ` and the content with a capital first letter.
pub open spec fn linted(content: Seq<char>) -> Seq<char> {
    if content.len() == 0 {
        line_marker()
    } else {
        line_marker() + seq![' '] + capitalized(content)
    }
}

/// The text of a trimmed line inside a block comment, without its leading
/// stars: each `*` at the start goes, with the whitespace after it, so that
/// the rewritten line reads the same when it is rewritten again.
pub open spec fn unstarred(t: Seq<char>) -> Seq<char>
    decreases t.len(),
{
    if t.len() > 0 && t[0] == '*' {
        proof {
            lemma_lead_ws_bounds(t.skip(1));
        }
        unstarred(trim_start(t.skip(1)))
    } else {
        t
    }
}

/// An indented line, or the bare indentation when the content is empty.
pub open spec fn indented(indent: Seq<char>, content: Seq<char>) -> Seq<char> {
    if content.len() == 0 {
        indent
    } else {
        indent + content
    }
}

/// The first line at or after `j` whose trimmed text is not empty (or the
/// number of lines, when there is none).
pub open spec fn blank_scan(raw: Seq<Seq<char>>, j: int) -> int
    decreases raw.len() - j,
{
    if j < 0 || j >= raw.len() {
        raw.len() as int
    } else if trim_start(raw[j]).len() != 0 {
        j
    } else {
        blank_scan(raw, j + 1)
    }
}

/// The first line at or after `j` whose trimmed text does not start with
/// `//` (or the number of lines, when there is none).
pub open spec fn run_end(raw: Seq<Seq<char>>, j: int) -> int
    decreases raw.len() - j,
{
    if j < 0 || j >= raw.len() {
        raw.len() as int
    } else if starts_with(trim_start(raw[j]), line_marker()) {
        run_end(raw, j + 1)
    } else {
        j
    }
}

/// Where processing resumes when the comment opened on line `i` (whose
/// trimmed text `t` starts with `/*`) is an empty block comment to drop:
/// either `/*` and `*/` on one line with only whitespace between, or a `/*`
/// followed by blank lines up to a line that starts with `*/`.
pub open spec fn strip_target(raw: Seq<Seq<char>>, i: int, t: Seq<char>) -> Option<int> {
    let rest = t.skip(2);
    match find(rest, close_marker()) {
        Some(ci) => if trim(rest.take(ci)).len() == 0 {
            Some(i + 1)
        } else {
            None
        },
        None => {
            let k = blank_scan(raw, i + 1);
            if k < raw.len() && starts_with(trim_start(raw[k]), close_marker()) {
                Some(k + 1)
            } else {
                None
            }
        },
    }
}

/// The content of a single-line block comment `/* content */`, when `t`
/// (which starts with `/*`) closes on the same line and is not empty.
pub open spec fn single_line_content(t: Seq<char>) -> Option<Seq<char>> {
    let rest = t.skip(2);
    match find(rest, close_marker()) {
        Some(ci) => if trim(rest.take(ci)).len() != 0 {
            Some(trim(rest.take(ci)))
        } else {
            None
        },
        None => None,
    }
}

/// A run of line comments turned into one block comment: `/*`, the text of
/// each comment line without its `//`, and `*/`, all at the indentation.
pub open spec fn run_as_block(indent: Seq<char>, run: Seq<Seq<char>>) -> Seq<Seq<char>> {
    seq![indent + open_marker()] + run.map_values(
        |l: Seq<char>| indented(indent, trim_start(trim_start(l).skip(2))),
    ) + seq![indent + close_marker()]
}

/// One step of the line rewriter at line `i`: the lines it emits, the line
/// where it resumes, and whether it is then inside a block comment.
pub open spec fn step(
    cfg: KdlFmtConfig,
    indent: Seq<char>,
    inline: bool,
    raw: Seq<Seq<char>>,
    i: int,
    in_block: bool,
) -> (Seq<Seq<char>>, int, bool) {
    let line = raw[i];
    let t = trim_start(line);
    if in_block {
        if starts_with(t, close_marker()) {
            (seq![indent + close_marker()], i + 1, false)
        } else {
            (seq![indented(indent, unstarred(t))], i + 1, true)
        }
    } else if cfg.strip_empty_block_comments && starts_with(t, open_marker()) && strip_target(
        raw,
        i,
        t,
    ) is Some {
        (Seq::empty(), strip_target(raw, i, t)->0, false)
    } else if !inline && cfg.normalize_single_line_block_comments && starts_with(t, open_marker())
        && single_line_content(t) is Some {
        (seq![indent + linted(single_line_content(t)->0)], i + 1, false)
    } else if !inline && cfg.n_comment_lines_to_multiline is Some && starts_with(t, line_marker())
        && run_end(raw, i + 1) - i >= cfg.n_comment_lines_to_multiline->0 {
        let k = run_end(raw, i + 1);
        (run_as_block(indent, raw.subrange(i, k)), k, false)
    } else if starts_with(t, line_marker()) {
        (seq![indent + linted(trim(t.skip(2)))], i + 1, false)
    } else if starts_with(t, open_marker()) {
        (seq![indent + t], i + 1, !contains(t.skip(2), close_marker()))
    } else if starts_with(t, slashdash_marker()) {
        (seq![indent + t], i + 1, false)
    } else {
        (seq![line], i + 1, false)
    }
}

/// The rewritten lines from line `i` on, in the given block state.
pub open spec fn rewrite_from(
    cfg: KdlFmtConfig,
    indent: Seq<char>,
    inline: bool,
    raw: Seq<Seq<char>>,
    i: int,
    in_block: bool,
) -> Seq<Seq<char>>
    decreases raw.len() - i,
{
    if i < 0 || i >= raw.len() {
        Seq::empty()
    } else {
        let (out, next, b) = step(cfg, indent, inline, raw, i, in_block);
        if next <= i || next > raw.len() {
            Seq::empty()
        } else {
            out + rewrite_from(cfg, indent, inline, raw, next, b)
        }
    }
}

/// The rewritten trivia string. Empty trivia stays empty; otherwise it is
/// cut at line feeds, rewritten line by line from outside any block comment,
/// and joined with line feeds again.
pub open spec fn processed(
    cfg: KdlFmtConfig,
    indent: Seq<char>,
    inline: bool,
    s: Seq<char>,
) -> Seq<char> {
    if s.len() == 0 {
        s
    } else {
        join_lines(rewrite_from(cfg, indent, inline, split_lines(s), 0, false))
    }
}

proof fn lemma_blank_scan_bounds(raw: Seq<Seq<char>>, j: int)
    requires
        0 <= j,
    ensures
        j <= blank_scan(raw, j) <= raw.len() || (j > raw.len() && blank_scan(raw, j) == raw.len()),
        blank_scan(raw, j) < raw.len() ==> trim_start(raw[blank_scan(raw, j)]).len() != 0,
    decreases raw.len() - j,
{
    if j < raw.len() && trim_start(raw[j]).len() == 0 {
        lemma_blank_scan_bounds(raw, j + 1);
    }
}

proof fn lemma_run_end_bounds(raw: Seq<Seq<char>>, j: int)
    requires
        0 <= j <= raw.len(),
    ensures
        j <= run_end(raw, j) <= raw.len(),
        forall|m: int|
            j <= m < run_end(raw, j) ==> starts_with(trim_start(#[trigger] raw[m]), line_marker()),
    decreases raw.len() - j,
{
    if j < raw.len() && starts_with(trim_start(raw[j]), line_marker()) {
        lemma_run_end_bounds(raw, j + 1);
    }
}

/// The first character upper-cased, the rest unchanged.
pub fn capitalize_first(s: &[char]) -> (r: Vec<char>)
    ensures
        r@ == capitalized(s@),
{
    if s.len() == 0 {
        return Vec::new();
    }
    let mut r = upper_chars(s[0]);
    let rest = slice_vec(s, 1, s.len());
    assert(rest@ =~= s@.drop_first());
    push_all(&mut r, rest.as_slice());
    r
}

fn line_marker_vec() -> (r: Vec<char>)
    ensures
        r@ == line_marker(),
{
    let r = vec!['/', '/'];
    assert(r@ =~= line_marker());
    r
}

fn open_marker_vec() -> (r: Vec<char>)
    ensures
        r@ == open_marker(),
{
    let r = vec!['/', '*'];
    assert(r@ =~= open_marker());
    r
}

fn close_marker_vec() -> (r: Vec<char>)
    ensures
        r@ == close_marker(),
{
    let r = vec!['*', '/'];
    assert(r@ =~= close_marker());
    r
}

fn slashdash_marker_vec() -> (r: Vec<char>)
    ensures
        r@ == slashdash_marker(),
{
    let r = vec!['/', '-'];
    assert(r@ =~= slashdash_marker());
    r
}

/// Executable `has_comment`.
pub fn has_comment_vec(s: &[char]) -> (r: bool)
    ensures
        r == has_comment(s@),
{
    let lm = line_marker_vec();
    let om = open_marker_vec();
    contains_vec(s, lm.as_slice()) || contains_vec(s, om.as_slice())
}

/// Executable `linted`.
fn linted_vec(content: &[char]) -> (r: Vec<char>)
    ensures
        r@ == linted(content@),
{
    let mut r = line_marker_vec();
    if content.len() > 0 {
        r.push(' ');
        let c = capitalize_first(content);
        push_all(&mut r, c.as_slice());
    }
    r
}

/// Executable `indented`.
fn indented_vec(indent: &[char], content: &[char]) -> (r: Vec<char>)
    ensures
        r@ == indented(indent@, content@),
{
    if content.len() == 0 {
        slice_vec(indent, 0, indent.len())
    } else {
        concat(indent, content)
    }
}

/// Trimmed text starts with no whitespace.
proof fn lemma_trim_start_clean(s: Seq<char>)
    ensures
        lead_ws(trim_start(s)) == 0,
{
    lemma_lead_ws_bounds(s);
    let t = trim_start(s);
    if t.len() > 0 {
        assert(t[0] == s[lead_ws(s) as int]);
    }
}

/// Unstarring trimmed text leaves trimmed text that does not start with a
/// star.
proof fn lemma_unstarred_clean(t: Seq<char>)
    requires
        lead_ws(t) == 0,
    ensures
        lead_ws(unstarred(t)) == 0,
        !(unstarred(t).len() > 0 && unstarred(t)[0] == '*'),
    decreases t.len(),
{
    if t.len() > 0 && t[0] == '*' {
        lemma_lead_ws_bounds(t.skip(1));
        lemma_trim_start_clean(t.skip(1));
        lemma_unstarred_clean(trim_start(t.skip(1)));
    }
}

/// Whitespace in front of trimmed text is what trimming removes.
proof fn lemma_trim_start_after_ws(ws: Seq<char>, u: Seq<char>)
    requires
        forall|i: int| 0 <= i < ws.len() ==> is_ws(#[trigger] ws[i]),
        lead_ws(u) == 0,
    ensures
        trim_start(ws + u) == u,
    decreases ws.len(),
{
    if ws.len() == 0 {
        assert(ws + u =~= u);
    } else {
        let rest = ws.drop_first();
        assert((ws + u).drop_first() =~= rest + u);
        assert forall|i: int| 0 <= i < rest.len() implies is_ws(#[trigger] rest[i]) by {
            assert(rest[i] == ws[i + 1]);
        }
        lemma_trim_start_after_ws(rest, u);
        assert((ws + u)[0] == ws[0]);
        lemma_lead_ws_bounds(rest + u);
        assert(lead_ws(ws + u) == 1 + lead_ws(rest + u));
        assert((ws + u).skip(lead_ws(ws + u) as int) =~= (rest + u).skip(lead_ws(rest + u) as int));
    }
}

/// Inside a block comment a rewritten line rewrites to itself: the line as
/// it comes out (indented by whitespace), trimmed and unstarred again, gives
/// the same text.
pub proof fn lemma_block_line_rewrite_stable(indent: Seq<char>, line: Seq<char>)
    requires
        forall|i: int| 0 <= i < indent.len() ==> is_ws(#[trigger] indent[i]),
    ensures
        unstarred(trim_start(indented(indent, unstarred(trim_start(line)))))
            == unstarred(trim_start(line)),
{
    let u = unstarred(trim_start(line));
    lemma_trim_start_clean(line);
    lemma_unstarred_clean(trim_start(line));
    if u.len() == 0 {
        assert(indent =~= indent + u);
    }
    lemma_trim_start_after_ws(indent, u);
}

/// Block comments are indented to the depth: while the rewriter is inside a
/// `/* */` comment, or when a line opens one, every line it emits (content
/// and closing `*/` lines included) begins with the indentation.
pub proof fn lemma_block_comment_lines_indented(
    cfg: KdlFmtConfig,
    indent: Seq<char>,
    inline: bool,
    raw: Seq<Seq<char>>,
    i: int,
    in_block: bool,
)
    requires
        0 <= i < raw.len(),
        in_block || step(cfg, indent, inline, raw, i, in_block).2,
    ensures
        forall|j: int|
            0 <= j < step(cfg, indent, inline, raw, i, in_block).0.len() ==> starts_with(
                #[trigger] step(cfg, indent, inline, raw, i, in_block).0[j],
                indent,
            ),
{
    let out = step(cfg, indent, inline, raw, i, in_block).0;
    assert forall|j: int| 0 <= j < out.len() implies starts_with(#[trigger] out[j], indent) by {
        let l = out[j];
        assert(l.take(indent.len() as int) =~= indent);
    }
}

/// Executable `unstarred`.
fn unstarred_vec(t: &[char]) -> (r: Vec<char>)
    ensures
        r@ == unstarred(t@),
{
    let mut cur = slice_vec(t, 0, t.len());
    assert(cur@ =~= t@);
    while cur.len() > 0 && cur[0] == '*'
        invariant
            unstarred(cur@) == unstarred(t@),
        decreases cur@.len(),
    {
        let rest = slice_vec(cur.as_slice(), 1, cur.len());
        assert(rest@ =~= cur@.skip(1));
        proof {
            lemma_lead_ws_bounds(rest@);
        }
        cur = trim_start_vec(rest.as_slice());
    }
    cur
}

/// Executable `blank_scan`.
fn blank_scan_vec(raw: &Vec<Vec<char>>, j: usize) -> (k: usize)
    requires
        j <= raw.len(),
    ensures
        k == blank_scan(seqs_view(raw@), j as int),
{
    let ghost rv = seqs_view(raw@);
    let mut k = j;
    while k < raw.len()
        invariant
            j <= k <= raw.len(),
            rv == seqs_view(raw@),
            blank_scan(rv, j as int) == blank_scan(rv, k as int),
        decreases raw.len() - k,
    {
        let t = trim_start_vec(raw[k].as_slice());
        assert(rv[k as int] == raw@[k as int]@);
        if t.len() != 0 {
            return k;
        }
        k = k + 1;
    }
    k
}

/// Executable `run_end`.
fn run_end_vec(raw: &Vec<Vec<char>>, j: usize) -> (k: usize)
    requires
        j <= raw.len(),
    ensures
        k == run_end(seqs_view(raw@), j as int),
{
    let ghost rv = seqs_view(raw@);
    let lm = line_marker_vec();
    let mut k = j;
    while k < raw.len()
        invariant
            j <= k <= raw.len(),
            rv == seqs_view(raw@),
            lm@ == line_marker(),
            run_end(rv, j as int) == run_end(rv, k as int),
        decreases raw.len() - k,
    {
        let t = trim_start_vec(raw[k].as_slice());
        assert(rv[k as int] == raw@[k as int]@);
        if !starts_with_vec(t.as_slice(), lm.as_slice()) {
            return k;
        }
        k = k + 1;
    }
    k
}

/// Executable `strip_target`.
fn strip_target_vec(raw: &Vec<Vec<char>>, i: usize, t: &[char]) -> (r: Option<usize>)
    requires
        i < raw.len(),
        starts_with(t@, open_marker()),
    ensures
        match r {
            Some(n) => strip_target(seqs_view(raw@), i as int, t@) == Some(n as int) && i < n
                <= raw.len(),
            None => strip_target(seqs_view(raw@), i as int, t@) is None,
        },
{
    let ghost rv = seqs_view(raw@);
    let rest = slice_vec(t, 2, t.len());
    assert(rest@ =~= t@.skip(2));
    let cm = close_marker_vec();
    match find_vec(rest.as_slice(), cm.as_slice()) {
        Some(ci) => {
            proof {
                assert(find_from(rest@, cm@, 0) == Some(ci as int));
                lemma_find_bounds(rest@, cm@, 0);
            }
            let inner = slice_vec(rest.as_slice(), 0, ci);
            assert(inner@ =~= rest@.take(ci as int));
            let tr = trim_vec(inner.as_slice());
            if tr.len() == 0 {
                Some(i + 1)
            } else {
                None
            }
        },
        None => {
            let k = blank_scan_vec(raw, i + 1);
            proof {
                lemma_blank_scan_bounds(rv, i + 1);
            }
            if k < raw.len() {
                let tk = trim_start_vec(raw[k].as_slice());
                assert(rv[k as int] == raw@[k as int]@);
                if starts_with_vec(tk.as_slice(), cm.as_slice()) {
                    return Some(k + 1);
                }
            }
            None
        },
    }
}

/// A match reported by `find_from` lies within the sequence.
pub proof fn lemma_find_bounds(s: Seq<char>, p: Seq<char>, i: int)
    ensures
        find_from(s, p, i) matches Some(k) ==> i <= k && k + p.len() <= s.len() && s.subrange(
            k,
            k + p.len(),
        ) == p,
    decreases s.len() - i,
{
    if !(i < 0 || i + p.len() > s.len()) && s.subrange(i, i + p.len()) != p && i < s.len() {
        lemma_find_bounds(s, p, i + 1);
    }
}

/// Executable `single_line_content`.
fn single_line_content_vec(t: &[char]) -> (r: Option<Vec<char>>)
    requires
        starts_with(t@, open_marker()),
    ensures
        match r {
            Some(c) => single_line_content(t@) == Some(c@),
            None => single_line_content(t@) is None,
        },
{
    let rest = slice_vec(t, 2, t.len());
    assert(rest@ =~= t@.skip(2));
    let cm = close_marker_vec();
    match find_vec(rest.as_slice(), cm.as_slice()) {
        Some(ci) => {
            proof {
                assert(find_from(rest@, cm@, 0) == Some(ci as int));
                lemma_find_bounds(rest@, cm@, 0);
            }
            let inner = slice_vec(rest.as_slice(), 0, ci);
            assert(inner@ =~= rest@.take(ci as int));
            let tr = trim_vec(inner.as_slice());
            if tr.len() != 0 {
                Some(tr)
            } else {
                None
            }
        },
        None => None,
    }
}

/// Executable `run_as_block` for the lines `raw[i..k]`.
fn run_as_block_vec(indent: &[char], raw: &Vec<Vec<char>>, i: usize, k: usize) -> (r: Vec<
    Vec<char>,
>)
    requires
        i <= k <= raw.len(),
        forall|m: int|
            i <= m < k ==> starts_with(
                trim_start(#[trigger] seqs_view(raw@)[m]),
                line_marker(),
            ),
    ensures
        seqs_view(r@) == run_as_block(indent@, seqs_view(raw@).subrange(i as int, k as int)),
{
    let ghost run = seqs_view(raw@).subrange(i as int, k as int);
    let ghost f = |l: Seq<char>| indented(indent@, trim_start(trim_start(l).skip(2)));
    let om = open_marker_vec();
    let cm = close_marker_vec();
    let mut r: Vec<Vec<char>> = Vec::new();
    r.push(concat(indent, om.as_slice()));
    let mut j = i;
    while j < k
        invariant
            i <= j <= k <= raw.len(),
            forall|m: int|
                i <= m < k ==> starts_with(
                    trim_start(#[trigger] seqs_view(raw@)[m]),
                    line_marker(),
                ),
            run == seqs_view(raw@).subrange(i as int, k as int),
            f == (|l: Seq<char>| indented(indent@, trim_start(trim_start(l).skip(2)))),
            seqs_view(r@) == seq![indent@ + open_marker()] + run.take(j - i).map_values(f),
        decreases k - j,
    {
        let t = trim_start_vec(raw[j].as_slice());
        assert(seqs_view(raw@)[j as int] == raw@[j as int]@);
        assert(starts_with(t@, line_marker()));
        let content = slice_vec(t.as_slice(), 2, t.len());
        assert(content@ =~= t@.skip(2));
        let c = trim_start_vec(content.as_slice());
        let line = indented_vec(indent, c.as_slice());
        let ghost before = seqs_view(r@);
        r.push(line);
        proof {
            assert(run[j - i] == raw@[j as int]@);
            assert(run.take(j + 1 - i) =~= run.take(j - i).push(run[j - i]));
            assert(run.take(j + 1 - i).map_values(f) =~= run.take(j - i).map_values(f).push(
                f(run[j - i]),
            ));
            assert(seqs_view(r@) =~= before.push(line@));
        }
        j = j + 1;
    }
    let ghost before = seqs_view(r@);
    r.push(concat(indent, cm.as_slice()));
    proof {
        assert(run.take(k - i) =~= run);
        assert(seqs_view(r@) =~= before.push(indent@ + close_marker()));
    }
    r
}

/// The rewriter: the configuration's comment rules and the indentation of
/// one nesting depth.
pub struct TriviaProcessor<'a> {
    pub config: &'a KdlFmtConfig,
    pub indent: Vec<char>,
}

impl<'a> TriviaProcessor<'a> {
    /// The rewriter for trivia at nesting depth `depth`: the indentation is
    /// the configured indent repeated `depth` times.
    pub fn new(config: &'a KdlFmtConfig, depth: usize) -> (tp: Self)
        ensures
            tp.config == config,
            tp.indent@ == repeat(config.indent@, depth as nat),
    {
        let unit = chars_of(config.indent.as_str());
        TriviaProcessor { config, indent: repeat_vec(unit.as_slice(), depth) }
    }

    /// Executable `step`.
    fn step(&self, raw: &Vec<Vec<char>>, i: usize, in_block: bool, inline: bool) -> (r: (
        Vec<Vec<char>>,
        usize,
        bool,
    ))
        requires
            i < raw.len(),
        ensures
            (seqs_view(r.0@), r.1 as int, r.2) == step(
                *self.config,
                self.indent@,
                inline,
                seqs_view(raw@),
                i as int,
                in_block,
            ),
            i < r.1 <= raw.len(),
    {
        let ghost rv = seqs_view(raw@);
        let ghost cfg = *self.config;
        let indent = self.indent.as_slice();
        let line = raw[i].as_slice();
        assert(rv[i as int] == line@);
        let t = trim_start_vec(line);
        let lm = line_marker_vec();
        let om = open_marker_vec();
        let cm = close_marker_vec();
        let sd = slashdash_marker_vec();
        if in_block {
            if starts_with_vec(t.as_slice(), cm.as_slice()) {
                let out = vec![concat(indent, cm.as_slice())];
                assert(seqs_view(out@) =~= seq![indent@ + close_marker()]);
                return (out, i + 1, false);
            } else {
                let c = unstarred_vec(t.as_slice());
                let out = vec![indented_vec(indent, c.as_slice())];
                assert(seqs_view(out@) =~= seq![indented(indent@, unstarred(t@))]);
                return (out, i + 1, true);
            }
        }
        let opens = starts_with_vec(t.as_slice(), om.as_slice());
        if self.config.strip_empty_block_comments && opens {
            if let Some(n) = strip_target_vec(raw, i, t.as_slice()) {
                let out: Vec<Vec<char>> = Vec::new();
                assert(seqs_view(out@) =~= Seq::<Seq<char>>::empty());
                return (out, n, false);
            }
        }
        if !inline && self.config.normalize_single_line_block_comments && opens {
            if let Some(content) = single_line_content_vec(t.as_slice()) {
                let l = linted_vec(content.as_slice());
                let out = vec![concat(indent, l.as_slice())];
                assert(seqs_view(out@) =~= seq![indent@ + linted(content@)]);
                return (out, i + 1, false);
            }
        }
        let is_line_comment = starts_with_vec(t.as_slice(), lm.as_slice());
        if !inline && is_line_comment {
            if let Some(threshold) = self.config.n_comment_lines_to_multiline {
                let k = run_end_vec(raw, i + 1);
                proof {
                    lemma_run_end_bounds(rv, i + 1);
                }
                if k - i >= threshold as usize {
                    assert(starts_with(trim_start(rv[i as int]), line_marker()));
                    let out = run_as_block_vec(indent, raw, i, k);
                    return (out, k, false);
                }
            }
        }
        if is_line_comment {
            let rest = slice_vec(t.as_slice(), 2, t.len());
            assert(rest@ =~= t@.skip(2));
            let content = trim_vec(rest.as_slice());
            let l = linted_vec(content.as_slice());
            let out = vec![concat(indent, l.as_slice())];
            assert(seqs_view(out@) =~= seq![indent@ + linted(trim(t@.skip(2)))]);
            (out, i + 1, false)
        } else if opens {
            let rest = slice_vec(t.as_slice(), 2, t.len());
            assert(rest@ =~= t@.skip(2));
            let closes = contains_vec(rest.as_slice(), cm.as_slice());
            let out = vec![concat(indent, t.as_slice())];
            assert(seqs_view(out@) =~= seq![indent@ + t@]);
            (out, i + 1, !closes)
        } else if starts_with_vec(t.as_slice(), sd.as_slice()) {
            let out = vec![concat(indent, t.as_slice())];
            assert(seqs_view(out@) =~= seq![indent@ + t@]);
            (out, i + 1, false)
        } else {
            let copy = slice_vec(line, 0, line.len());
            assert(copy@ =~= line@);
            let out = vec![copy];
            assert(seqs_view(out@) =~= seq![line@]);
            (out, i + 1, false)
        }
    }

    /// Rewrites one trivia string; `is_inline` marks trivia on a node's own
    /// line (after an entry, before a terminator), where comments are linted
    /// and re-indented but never merged or turned into line comments.
    pub fn process(&self, s: &[char], is_inline: bool) -> (r: Vec<char>)
        ensures
            r@ == processed(*self.config, self.indent@, is_inline, s@),
    {
        if s.len() == 0 {
            return Vec::new();
        }
        let raw = split_lines_vec(s);
        let ghost rv = seqs_view(raw@);
        let ghost cfg = *self.config;
        let ghost ind = self.indent@;
        let mut lines: Vec<Vec<char>> = Vec::new();
        let mut in_block = false;
        let mut i: usize = 0;
        while i < raw.len()
            invariant
                i <= raw.len(),
                rv == seqs_view(raw@),
                cfg == *self.config,
                ind == self.indent@,
                seqs_view(lines@) + rewrite_from(cfg, ind, is_inline, rv, i as int, in_block)
                    == rewrite_from(cfg, ind, is_inline, rv, 0, false),
            decreases raw.len() - i,
        {
            let (out, next, b) = self.step(&raw, i, in_block, is_inline);
            let ghost before = seqs_view(lines@);
            let mut k: usize = 0;
            while k < out.len()
                invariant
                    k <= out.len(),
                    seqs_view(lines@) == before + seqs_view(out@).take(k as int),
                decreases out.len() - k,
            {
                let copy = slice_vec(out[k].as_slice(), 0, out[k].len());
                assert(copy@ =~= out@[k as int]@);
                let ghost prev_lines = lines@;
                lines.push(copy);
                proof {
                    assert(seqs_view(lines@) =~= seqs_view(prev_lines).push(copy@));
                    assert(seqs_view(out@).take(k + 1) =~= seqs_view(out@).take(k as int).push(
                        out@[k as int]@,
                    ));
                    assert(seqs_view(lines@) =~= before + seqs_view(out@).take(k + 1));
                }
                k = k + 1;
            }
            proof {
                assert(seqs_view(out@).take(out@.len() as int) =~= seqs_view(out@));
                assert(seqs_view(lines@) + rewrite_from(cfg, ind, is_inline, rv, next as int, b)
                    =~= before + rewrite_from(cfg, ind, is_inline, rv, i as int, in_block));
            }
            i = next;
            in_block = b;
        }
        proof {
            assert(seqs_view(lines@) =~= seqs_view(lines@) + rewrite_from(
                cfg,
                ind,
                is_inline,
                rv,
                i as int,
                in_block,
            ));
        }
        join_lines_vec(&lines)
    }
}

/// `n` line feeds.
pub open spec fn line_feeds(n: nat) -> Seq<char> {
    Seq::new(n, |i: int| '\n')
}

/// `n` empty lines.
pub open spec fn empty_lines(n: nat) -> Seq<Seq<char>> {
    Seq::new(n, |i: int| Seq::<char>::empty())
}

proof fn lemma_blank_scan_shift(a: Seq<Seq<char>>, b: Seq<Seq<char>>, j: int)
    requires
        0 <= j,
    ensures
        blank_scan(a + b, a.len() + j) == a.len() + blank_scan(b, j),
    decreases b.len() - j,
{
    if j < b.len() {
        assert((a + b)[a.len() + j] == b[j]);
        if trim_start(b[j]).len() == 0 {
            lemma_blank_scan_shift(a, b, j + 1);
        }
    }
}

proof fn lemma_run_end_shift(a: Seq<Seq<char>>, b: Seq<Seq<char>>, j: int)
    requires
        0 <= j,
    ensures
        run_end(a + b, a.len() + j) == a.len() + run_end(b, j),
    decreases b.len() - j,
{
    if j < b.len() {
        assert((a + b)[a.len() + j] == b[j]);
        if starts_with(trim_start(b[j]), line_marker()) {
            lemma_run_end_shift(a, b, j + 1);
        }
    }
}

/// A step reads only the lines from where it stands on.
proof fn lemma_step_shift(
    cfg: KdlFmtConfig,
    indent: Seq<char>,
    inline: bool,
    a: Seq<Seq<char>>,
    b: Seq<Seq<char>>,
    j: int,
    in_block: bool,
)
    requires
        0 <= j < b.len(),
    ensures
        ({
            let (e1, n1, b1) = step(cfg, indent, inline, a + b, a.len() + j, in_block);
            let (e2, n2, b2) = step(cfg, indent, inline, b, j, in_block);
            e1 == e2 && n1 == n2 + a.len() && b1 == b2
        }),
{
    let raw = a + b;
    let i = a.len() + j;
    assert(raw[i] == b[j]);
    let t = trim_start(b[j]);
    lemma_blank_scan_shift(a, b, j + 1);
    lemma_run_end_shift(a, b, j + 1);
    let k = blank_scan(b, j + 1);
    lemma_blank_scan_bounds(b, j + 1);
    if k < b.len() {
        assert(raw[a.len() + k] == b[k]);
    }
    let r = run_end(b, j + 1);
    lemma_run_end_bounds(b, j + 1);
    assert(raw.subrange(i, a.len() + r) =~= b.subrange(j, r));
}

/// Rewriting from a line reads only the lines from there on.
proof fn lemma_rewrite_shift(
    cfg: KdlFmtConfig,
    indent: Seq<char>,
    inline: bool,
    a: Seq<Seq<char>>,
    b: Seq<Seq<char>>,
    j: int,
    in_block: bool,
)
    requires
        0 <= j,
    ensures
        rewrite_from(cfg, indent, inline, a + b, a.len() + j, in_block) == rewrite_from(
            cfg,
            indent,
            inline,
            b,
            j,
            in_block,
        ),
    decreases b.len() - j,
{
    if j < b.len() {
        lemma_step_shift(cfg, indent, inline, a, b, j, in_block);
        let (e, n, nb) = step(cfg, indent, inline, b, j, in_block);
        if n > j && n <= b.len() {
            lemma_rewrite_shift(cfg, indent, inline, a, b, n, nb);
        }
    }
}

proof fn lemma_split_line_feeds(n: nat)
    ensures
        split_lines(line_feeds(n)) == empty_lines(n + 1),
    decreases n,
{
    if n == 0 {
        assert(line_feeds(0) =~= Seq::<char>::empty());
        assert(empty_lines(1) =~= seq![Seq::<char>::empty()]);
    } else {
        lemma_split_line_feeds((n - 1) as nat);
        assert(line_feeds(n).drop_last() =~= line_feeds((n - 1) as nat));
        assert(empty_lines((n - 1) as nat + 1).push(Seq::<char>::empty()) =~= empty_lines(n + 1));
    }
}

proof fn lemma_split_after_line_feeds(n: nat, s: Seq<char>)
    ensures
        split_lines(line_feeds(n) + s) == empty_lines(n) + split_lines(s),
    decreases s.len(),
{
    if s.len() == 0 {
        lemma_split_line_feeds(n);
        assert(line_feeds(n) + s =~= line_feeds(n));
        assert(empty_lines(n + 1) =~= empty_lines(n) + seq![Seq::<char>::empty()]);
    } else {
        let s1 = s.drop_last();
        lemma_split_after_line_feeds(n, s1);
        let x = line_feeds(n) + s;
        assert(x.drop_last() =~= line_feeds(n) + s1);
        assert(x.last() == s.last());
        let prev = split_lines(s1);
        let e = empty_lines(n);
        if s.last() == '\n' {
            assert((e + prev).push(Seq::<char>::empty()) =~= e + prev.push(Seq::<char>::empty()));
        } else {
            lemma_split_lines_nonempty(s1);
            assert((e + prev).update(
                (e + prev).len() - 1,
                (e + prev).last().push(s.last()),
            ) =~= e + prev.update(prev.len() - 1, prev.last().push(s.last())));
        }
    }
}

proof fn lemma_split_lines_nonempty(s: Seq<char>)
    ensures
        split_lines(s).len() > 0,
    decreases s.len(),
{
    if s.len() > 0 {
        lemma_split_lines_nonempty(s.drop_last());
    }
}

/// Empty lines outside a block comment pass through unchanged.
proof fn lemma_rewrite_empty_lines(
    cfg: KdlFmtConfig,
    indent: Seq<char>,
    inline: bool,
    n: nat,
    rest: Seq<Seq<char>>,
)
    ensures
        rewrite_from(cfg, indent, inline, empty_lines(n) + rest, 0, false) == empty_lines(n)
            + rewrite_from(cfg, indent, inline, rest, 0, false),
    decreases n,
{
    if n == 0 {
        assert(empty_lines(0) + rest =~= rest);
        assert(empty_lines(0) + rewrite_from(cfg, indent, inline, rest, 0, false) =~= rewrite_from(
            cfg,
            indent,
            inline,
            rest,
            0,
            false,
        ));
    } else {
        let e = seq![Seq::<char>::empty()];
        let tail = empty_lines((n - 1) as nat) + rest;
        let raw = empty_lines(n) + rest;
        assert(raw =~= e + tail);
        let empty = Seq::<char>::empty();
        assert(raw[0] == empty);
        lemma_lead_ws_zero(empty);
        assert(trim_start(empty) =~= empty);
        assert(!starts_with(empty, open_marker()));
        assert(!starts_with(empty, line_marker()));
        assert(!starts_with(empty, slashdash_marker()));
        assert(step(cfg, indent, inline, raw, 0, false) == (seq![empty], 1int, false));
        lemma_rewrite_shift(cfg, indent, inline, e, tail, 0, false);
        lemma_rewrite_empty_lines(cfg, indent, inline, (n - 1) as nat, rest);
        assert(seq![empty] + (empty_lines((n - 1) as nat) + rewrite_from(
            cfg,
            indent,
            inline,
            rest,
            0,
            false,
        )) =~= empty_lines(n) + rewrite_from(cfg, indent, inline, rest, 0, false));
    }
}

proof fn lemma_lead_ws_zero(s: Seq<char>)
    requires
        s.len() == 0,
    ensures
        lead_ws(s) == 0,
{
}

proof fn lemma_join_empty_lines(n: nat)
    requires
        n > 0,
    ensures
        join_lines(empty_lines(n)) == line_feeds((n - 1) as nat),
    decreases n,
{
    if n == 1 {
        assert(line_feeds(0) =~= Seq::<char>::empty());
    } else {
        lemma_join_empty_lines((n - 1) as nat);
        assert(empty_lines(n).drop_last() =~= empty_lines((n - 1) as nat));
        assert(line_feeds((n - 2) as nat) + seq!['\n'] + Seq::<char>::empty() =~= line_feeds(
            (n - 1) as nat,
        ));
    }
}

proof fn lemma_join_after_empty_lines(n: nat, r: Seq<Seq<char>>)
    requires
        r.len() > 0,
    ensures
        join_lines(empty_lines(n) + r) == line_feeds(n) + join_lines(r),
    decreases r.len(),
{
    let e = empty_lines(n);
    if r.len() == 1 {
        if n == 0 {
            assert(e + r =~= r);
            assert(line_feeds(0) + join_lines(r) =~= join_lines(r));
        } else {
            assert((e + r).drop_last() =~= e);
            assert((e + r).last() == r[0]);
            lemma_join_empty_lines(n);
            assert(line_feeds((n - 1) as nat) + seq!['\n'] + r[0] =~= line_feeds(n) + r[0]);
        }
    } else {
        lemma_join_after_empty_lines(n, r.drop_last());
        assert((e + r).drop_last() =~= e + r.drop_last());
        assert((e + r).last() == r.last());
        assert(line_feeds(n) + join_lines(r.drop_last()) + seq!['\n'] + r.last() =~= line_feeds(n)
            + (join_lines(r.drop_last()) + seq!['\n'] + r.last()));
    }
}

/// Blank lines in front of trivia survive its rewriting: they come out
/// in front of the rewritten trivia, unless that trivia rewrites to nothing
/// (a stripped empty block comment), which the blank lines then replace.
pub proof fn lemma_leading_line_feeds_kept(
    cfg: KdlFmtConfig,
    indent: Seq<char>,
    inline: bool,
    n: nat,
    s: Seq<char>,
)
    requires
        s.len() == 0 || processed(cfg, indent, inline, s).len() > 0,
    ensures
        processed(cfg, indent, inline, line_feeds(n) + s) == line_feeds(n) + processed(
            cfg,
            indent,
            inline,
            s,
        ),
{
    if n == 0 {
        assert(line_feeds(0) + s =~= s);
        assert(line_feeds(0) + processed(cfg, indent, inline, s) =~= processed(
            cfg,
            indent,
            inline,
            s,
        ));
    } else {
        let x = line_feeds(n) + s;
        assert(x.len() > 0);
        lemma_split_after_line_feeds(n, s);
        lemma_rewrite_empty_lines(cfg, indent, inline, n, split_lines(s));
        let r = rewrite_from(cfg, indent, inline, split_lines(s), 0, false);
        if s.len() == 0 {
            assert(split_lines(s) =~= seq![Seq::<char>::empty()]);
            assert(x =~= line_feeds(n));
            lemma_rewrite_empty_lines(cfg, indent, inline, n + 1, Seq::empty());
            assert(empty_lines(n + 1) + Seq::<Seq<char>>::empty() =~= empty_lines(n + 1));
            lemma_split_line_feeds(n);
            assert(rewrite_from(cfg, indent, inline, Seq::<Seq<char>>::empty(), 0, false) =~= Seq::<
                Seq<char>,
            >::empty());
            assert(empty_lines(n + 1) + Seq::<Seq<char>>::empty() =~= empty_lines(n + 1));
            lemma_join_empty_lines(n + 1);
            assert(line_feeds(n) + s =~= line_feeds(n));
        } else {
            assert(r.len() > 0);
            lemma_join_after_empty_lines(n, r);
        }
    }
}

} // verus!
