//! Removal of blank lines right before a closing brace, on printed output.

use vstd::prelude::*;

use crate::text::{
    chars_of, is_blank, join_lines, join_lines_vec, lemma_trim_empty_iff_blank, seqs_view,
    slice_vec, split_lines, split_lines_vec, string_of, trim, trim_vec,
};

verus! {

/// `}`
pub open spec fn close_brace() -> Seq<char> {
    seq!['}']
}

/// The first line at or after `j` that is not blank (or the number of
/// lines, when there is none).
pub open spec fn next_content(lines: Seq<Seq<char>>, j: int) -> int
    decreases lines.len() - j,
{
    if j < 0 || j >= lines.len() {
        lines.len() as int
    } else if !is_blank(lines[j]) {
        j
    } else {
        next_content(lines, j + 1)
    }
}

/// Whether line `i` starts a run of blank lines that ends at a line holding
/// only `}` (up to whitespace).
pub open spec fn blank_before_brace(lines: Seq<Seq<char>>, i: int) -> bool {
    &&& is_blank(lines[i])
    &&& next_content(lines, i + 1) < lines.len()
    &&& trim(lines[next_content(lines, i + 1)]) == close_brace()
}

/// The lines from `i` on, without the blank lines that come right before a
/// `}` line.
pub open spec fn drop_blank_before_braces(lines: Seq<Seq<char>>, i: int) -> Seq<Seq<char>>
    decreases lines.len() - i,
{
    if i < 0 || i >= lines.len() {
        Seq::empty()
    } else if blank_before_brace(lines, i) {
        if next_content(lines, i + 1) <= i {
            Seq::empty()
        } else {
            drop_blank_before_braces(lines, next_content(lines, i + 1))
        }
    } else {
        seq![lines[i]] + drop_blank_before_braces(lines, i + 1)
    }
}

/// `s` with every blank line that directly precedes a `}` line removed.
pub open spec fn without_blank_lines_before_braces(s: Seq<char>) -> Seq<char> {
    join_lines(drop_blank_before_braces(split_lines(s), 0))
}

pub proof fn lemma_next_content_bounds(lines: Seq<Seq<char>>, j: int)
    requires
        0 <= j <= lines.len(),
    ensures
        j <= next_content(lines, j) <= lines.len(),
        next_content(lines, j) < lines.len() ==> !is_blank(lines[next_content(lines, j)]),
        forall|m: int| j <= m < next_content(lines, j) ==> is_blank(#[trigger] lines[m]),
    decreases lines.len() - j,
{
    if j < lines.len() && is_blank(lines[j]) {
        lemma_next_content_bounds(lines, j + 1);
    }
}

/// The output's first line, when there is one: a jump lands on a `}` line,
/// which is kept.
proof fn lemma_first_kept(lines: Seq<Seq<char>>, i: int)
    requires
        0 <= i <= lines.len(),
    ensures
        drop_blank_before_braces(lines, i).len() > 0 ==> {
            let first = drop_blank_before_braces(lines, i)[0];
            if blank_before_brace(lines, i) {
                trim(first) == close_brace()
            } else {
                first == lines[i]
            }
        },
    decreases lines.len() - i,
{
    if i < lines.len() && blank_before_brace(lines, i) {
        let k = next_content(lines, i + 1);
        lemma_next_content_bounds(lines, i + 1);
        lemma_trim_empty_iff_blank(lines[k]);
        assert(!blank_before_brace(lines, k));
        lemma_first_kept(lines, k);
    }
}

/// No blank line of the output is directly followed by a `}` line.
pub proof fn lemma_no_blank_line_before_brace(lines: Seq<Seq<char>>, i: int)
    requires
        0 <= i <= lines.len(),
    ensures
        forall|k: int|
            0 <= k < drop_blank_before_braces(lines, i).len() - 1 ==> !(is_blank(
                #[trigger] drop_blank_before_braces(lines, i)[k],
            ) && trim(drop_blank_before_braces(lines, i)[k + 1]) == close_brace()),
    decreases lines.len() - i,
{
    if i < lines.len() {
        lemma_next_content_bounds(lines, i + 1);
        if blank_before_brace(lines, i) {
            assert(drop_blank_before_braces(lines, i) == drop_blank_before_braces(
                lines,
                next_content(lines, i + 1),
            ));
            lemma_no_blank_line_before_brace(lines, next_content(lines, i + 1));
        } else {
            let rest = drop_blank_before_braces(lines, i + 1);
            let out = drop_blank_before_braces(lines, i);
            lemma_no_blank_line_before_brace(lines, i + 1);
            lemma_first_kept(lines, i + 1);
            assert(out == seq![lines[i]] + rest);
            if is_blank(lines[i]) && rest.len() > 0 {
                // The line after a kept blank line is not a `}` line.
                if i + 1 < lines.len() && blank_before_brace(lines, i + 1) {
                    assert(next_content(lines, i + 1) == next_content(lines, i + 2));
                } else if i + 1 < lines.len() {
                    assert(rest[0] == lines[i + 1]);
                    if !is_blank(lines[i + 1]) {
                        assert(next_content(lines, i + 1) == i + 1);
                    } else {
                        lemma_trim_empty_iff_blank(lines[i + 1]);
                    }
                }
            }
            assert forall|k: int| 0 <= k < out.len() - 1 implies !(is_blank(#[trigger] out[k])
                && trim(out[k + 1]) == close_brace()) by {
                if k > 0 {
                    assert(out[k] == rest[k - 1]);
                    assert(out[k + 1] == rest[k]);
                }
            }
        }
    }
}

/// Every output line is one of the input lines from `i` on.
pub proof fn lemma_output_lines_from_input(lines: Seq<Seq<char>>, i: int)
    requires
        0 <= i <= lines.len(),
    ensures
        forall|k: int|
            0 <= k < drop_blank_before_braces(lines, i).len() ==> exists|j: int|
                i <= j < lines.len() && #[trigger] drop_blank_before_braces(lines, i)[k] == lines[j],
    decreases lines.len() - i,
{
    if i < lines.len() {
        lemma_next_content_bounds(lines, i + 1);
        let out = drop_blank_before_braces(lines, i);
        if blank_before_brace(lines, i) {
            assert(out == drop_blank_before_braces(lines, next_content(lines, i + 1)));
            lemma_output_lines_from_input(lines, next_content(lines, i + 1));
        } else {
            let rest = drop_blank_before_braces(lines, i + 1);
            lemma_output_lines_from_input(lines, i + 1);
            assert forall|k: int| 0 <= k < out.len() implies exists|j: int|
                i <= j < lines.len() && #[trigger] out[k] == lines[j] by {
                if k == 0 {
                    assert(out[0] == lines[i]);
                } else {
                    assert(out[k] == rest[k - 1]);
                }
            }
        }
    }
}

/// Strips blank lines that appear immediately before a closing `}` line.
/// Works on the printed output, since such lines may sit in several trivia
/// fields depending on position.
pub fn remove_trailing_blank_lines_before_braces(s: &str) -> (r: String)
    ensures
        r@ == without_blank_lines_before_braces(s@),
{
    let chars = chars_of(s);
    let lines = split_lines_vec(chars.as_slice());
    let ghost lv = seqs_view(lines@);
    let mut result: Vec<Vec<char>> = Vec::new();
    let mut i: usize = 0;
    while i < lines.len()
        invariant
            i <= lines.len(),
            lv == seqs_view(lines@),
            seqs_view(result@) + drop_blank_before_braces(lv, i as int)
                == drop_blank_before_braces(lv, 0),
        decreases lines.len() - i,
    {
        assert(lv[i as int] == lines@[i as int]@);
        let t = trim_vec(lines[i].as_slice());
        proof {
            lemma_trim_empty_iff_blank(lv[i as int]);
        }
        if t.len() == 0 {
            let mut j = i + 1;
            while j < lines.len()
                invariant
                    i < j <= lines.len(),
                    lv == seqs_view(lines@),
                    next_content(lv, i + 1) == next_content(lv, j as int),
                ensures
                    i < j <= lines.len(),
                    next_content(lv, i + 1) == j,
                decreases lines.len() - j,
            {
                let tj = trim_vec(lines[j].as_slice());
                proof {
                    assert(lv[j as int] == lines@[j as int]@);
                    lemma_trim_empty_iff_blank(lv[j as int]);
                }
                if tj.len() != 0 {
                    break;
                }
                j = j + 1;
            }
            proof {
                lemma_next_content_bounds(lv, i + 1);
            }
            if j < lines.len() {
                let tj = trim_vec(lines[j].as_slice());
                assert(lv[j as int] == lines@[j as int]@);
                if tj.len() == 1 && tj[0] == '}' {
                    assert(tj@ =~= close_brace());
                    assert(blank_before_brace(lv, i as int));
                    assert(drop_blank_before_braces(lv, i as int) == drop_blank_before_braces(
                        lv,
                        j as int,
                    ));
                    i = j;
                    continue;
                }
                assert(tj@ != close_brace()) by {
                    if tj@ == close_brace() {
                        assert(tj@[0] == '}');
                    }
                }
            }
        }
        assert(!blank_before_brace(lv, i as int));
        let line = slice_vec(lines[i].as_slice(), 0, lines[i].len());
        assert(line@ =~= lv[i as int]);
        let ghost before = seqs_view(result@);
        result.push(line);
        assert(seqs_view(result@) =~= before.push(line@));
        assert(seqs_view(result@) + drop_blank_before_braces(lv, i + 1) =~= before
            + drop_blank_before_braces(lv, i as int));
        i = i + 1;
    }
    assert(seqs_view(result@) =~= seqs_view(result@) + drop_blank_before_braces(lv, i as int));
    let joined = join_lines_vec(&result);
    string_of(joined.as_slice())
}

} // verus!
