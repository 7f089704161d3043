//! Character-sequence vocabulary shared by the formatter: whitespace,
//! trimming, prefix and substring search, splitting into lines and joining
//! them again. Each notion is a spec function over `Seq<char>` together with
//! an executable counterpart over `[char]` that is proved to compute it.

use vstd::prelude::*;

verus! {

/// `char::is_whitespace`: the Unicode `White_Space` property.
pub open spec fn is_ws(c: char) -> bool {
    let n = c as u32;
    ||| 0x9 <= n <= 0xD
    ||| n == 0x20
    ||| n == 0x85
    ||| n == 0xA0
    ||| n == 0x1680
    ||| 0x2000 <= n <= 0x200A
    ||| n == 0x2028
    ||| n == 0x2029
    ||| n == 0x202F
    ||| n == 0x205F
    ||| n == 0x3000
}

/// Number of whitespace characters at the start of `s`.
pub open spec fn lead_ws(s: Seq<char>) -> nat
    decreases s.len(),
{
    if s.len() > 0 && is_ws(s[0]) {
        1 + lead_ws(s.drop_first())
    } else {
        0
    }
}

/// Number of whitespace characters at the end of `s`.
pub open spec fn trail_ws(s: Seq<char>) -> nat
    decreases s.len(),
{
    if s.len() > 0 && is_ws(s.last()) {
        1 + trail_ws(s.drop_last())
    } else {
        0
    }
}

/// `str::trim_start`.
pub open spec fn trim_start(s: Seq<char>) -> Seq<char> {
    s.skip(lead_ws(s) as int)
}

/// `str::trim_end`.
pub open spec fn trim_end(s: Seq<char>) -> Seq<char> {
    s.take(s.len() - trail_ws(s))
}

/// `str::trim`.
pub open spec fn trim(s: Seq<char>) -> Seq<char> {
    trim_end(trim_start(s))
}

/// A line with nothing but whitespace on it.
pub open spec fn is_blank(s: Seq<char>) -> bool {
    forall|i: int| 0 <= i < s.len() ==> is_ws(#[trigger] s[i])
}

/// `str::starts_with`.
pub open spec fn starts_with(s: Seq<char>, p: Seq<char>) -> bool {
    p.len() <= s.len() && s.take(p.len() as int) == p
}

/// The first position at or after `i` where `p` occurs in `s`.
pub open spec fn find_from(s: Seq<char>, p: Seq<char>, i: int) -> Option<int>
    decreases s.len() - i,
{
    if i < 0 || i + p.len() > s.len() {
        None
    } else if s.subrange(i, i + p.len()) == p {
        Some(i)
    } else if i >= s.len() {
        None
    } else {
        find_from(s, p, i + 1)
    }
}

/// `str::find`: the first position where `p` occurs in `s`.
pub open spec fn find(s: Seq<char>, p: Seq<char>) -> Option<int> {
    find_from(s, p, 0)
}

/// `str::contains`.
pub open spec fn contains(s: Seq<char>, p: Seq<char>) -> bool {
    find(s, p) is Some
}

/// `str::split('\n')`: the pieces of `s` between line feeds. There is always
/// at least one piece, and none of them holds a line feed.
pub open spec fn split_lines(s: Seq<char>) -> Seq<Seq<char>>
    decreases s.len(),
{
    if s.len() == 0 {
        seq![Seq::<char>::empty()]
    } else {
        let prev = split_lines(s.drop_last());
        if s.last() == '\n' {
            prev.push(Seq::<char>::empty())
        } else {
            prev.update(prev.len() - 1, prev.last().push(s.last()))
        }
    }
}

/// `join("\n")`: the pieces of `ls` with a line feed between each two.
pub open spec fn join_lines(ls: Seq<Seq<char>>) -> Seq<char>
    decreases ls.len(),
{
    if ls.len() == 0 {
        Seq::<char>::empty()
    } else if ls.len() == 1 {
        ls[0]
    } else {
        join_lines(ls.drop_last()) + seq!['\n'] + ls.last()
    }
}

/// `str::repeat`: `n` copies of `s`, one after the other.
pub open spec fn repeat(s: Seq<char>, n: nat) -> Seq<char>
    decreases n,
{
    if n == 0 {
        Seq::<char>::empty()
    } else {
        repeat(s, (n - 1) as nat) + s
    }
}

/// The views of a sequence of character vectors.
pub open spec fn seqs_view(v: Seq<Vec<char>>) -> Seq<Seq<char>> {
    v.map_values(|x: Vec<char>| x@)
}

/// `lead_ws` is the length of the longest whitespace prefix.
pub proof fn lemma_lead_ws(s: Seq<char>, k: int)
    requires
        0 <= k <= s.len(),
        forall|i: int| 0 <= i < k ==> is_ws(#[trigger] s[i]),
        k == s.len() || !is_ws(s[k]),
    ensures
        lead_ws(s) == k,
    decreases k,
{
    if k > 0 {
        let t = s.drop_first();
        assert forall|i: int| 0 <= i < k - 1 implies is_ws(#[trigger] t[i]) by {
            assert(t[i] == s[i + 1]);
        }
        if k - 1 < t.len() {
            assert(t[k - 1] == s[k]);
        }
        lemma_lead_ws(t, k - 1);
    }
}

/// `trail_ws` is the length of the longest whitespace suffix.
pub proof fn lemma_trail_ws(s: Seq<char>, k: int)
    requires
        0 <= k <= s.len(),
        forall|i: int| s.len() - k <= i < s.len() ==> is_ws(#[trigger] s[i]),
        k == s.len() || !is_ws(s[s.len() - k - 1]),
    ensures
        trail_ws(s) == k,
    decreases k,
{
    if k > 0 {
        let t = s.drop_last();
        assert forall|i: int| t.len() - (k - 1) <= i < t.len() implies is_ws(#[trigger] t[i]) by {
            assert(t[i] == s[i]);
        }
        if k - 1 < t.len() {
            assert(t[t.len() - (k - 1) - 1] == s[s.len() - k - 1]);
        }
        lemma_trail_ws(t, k - 1);
    }
}

/// The whitespace prefix is whitespace, and what follows it is not.
pub proof fn lemma_lead_ws_bounds(s: Seq<char>)
    ensures
        lead_ws(s) <= s.len(),
        forall|i: int| 0 <= i < lead_ws(s) ==> is_ws(#[trigger] s[i]),
        lead_ws(s) < s.len() ==> !is_ws(s[lead_ws(s) as int]),
    decreases s.len(),
{
    if s.len() > 0 && is_ws(s[0]) {
        let t = s.drop_first();
        lemma_lead_ws_bounds(t);
        assert forall|i: int| 0 <= i < lead_ws(s) implies is_ws(#[trigger] s[i]) by {
            if i > 0 {
                assert(s[i] == t[i - 1]);
            }
        }
        if lead_ws(s) < s.len() {
            assert(s[lead_ws(s) as int] == t[lead_ws(t) as int]);
        }
    }
}

/// The whitespace suffix is whitespace, and what precedes it is not.
pub proof fn lemma_trail_ws_bounds(s: Seq<char>)
    ensures
        trail_ws(s) <= s.len(),
        forall|i: int| s.len() - trail_ws(s) <= i < s.len() ==> is_ws(#[trigger] s[i]),
        trail_ws(s) < s.len() ==> !is_ws(s[s.len() - trail_ws(s) - 1]),
    decreases s.len(),
{
    if s.len() > 0 && is_ws(s.last()) {
        let t = s.drop_last();
        lemma_trail_ws_bounds(t);
        assert forall|i: int| s.len() - trail_ws(s) <= i < s.len() implies is_ws(#[trigger] s[i]) by {
            if i < s.len() - 1 {
                assert(s[i] == t[i]);
            }
        }
        if trail_ws(s) < s.len() {
            assert(s[s.len() - trail_ws(s) - 1] == t[t.len() - trail_ws(t) - 1]);
        }
    }
}

/// A sequence trims to nothing exactly when it is blank.
pub proof fn lemma_trim_empty_iff_blank(s: Seq<char>)
    ensures
        (trim(s).len() == 0) == is_blank(s),
        (trim_start(s).len() == 0) == is_blank(s),
{
    lemma_lead_ws_bounds(s);
    let t = trim_start(s);
    lemma_trail_ws_bounds(t);
    if is_blank(s) {
        if lead_ws(s) < s.len() {
            assert(is_ws(s[lead_ws(s) as int]));
        }
    } else {
        let i = choose|i: int| 0 <= i < s.len() && !is_ws(s[i]);
        assert(i >= lead_ws(s));
        assert(t[i - lead_ws(s)] == s[i]);
        if trail_ws(t) == t.len() {
            assert(is_ws(t[i - lead_ws(s)]));
        }
    }
}

/// A sequence without line feeds.
pub open spec fn no_newline(s: Seq<char>) -> bool {
    forall|i: int| 0 <= i < s.len() ==> #[trigger] s[i] != '\n'
}

/// The pieces of a split hold no line feeds.
pub proof fn lemma_split_lines_no_newline(s: Seq<char>)
    ensures
        split_lines(s).len() > 0,
        forall|k: int| 0 <= k < split_lines(s).len() ==> no_newline(#[trigger] split_lines(s)[k]),
    decreases s.len(),
{
    if s.len() > 0 {
        lemma_split_lines_no_newline(s.drop_last());
        let prev = split_lines(s.drop_last());
        if s.last() != '\n' {
            let l = prev.last().push(s.last());
            assert(no_newline(l)) by {
                assert forall|i: int| 0 <= i < l.len() implies #[trigger] l[i] != '\n' by {
                    if i < l.len() - 1 {
                        assert(l[i] == prev.last()[i]);
                    }
                }
            }
        }
    }
}

/// Splitting text with a line feed in front of a final piece.
proof fn lemma_split_after_newline(a: Seq<char>, b: Seq<char>)
    requires
        no_newline(b),
    ensures
        split_lines(a + seq!['\n'] + b) == split_lines(a).push(b),
    decreases b.len(),
{
    if b.len() == 0 {
        assert(b =~= Seq::<char>::empty());
        assert(a + seq!['\n'] + b =~= a.push('\n'));
        assert((a + seq!['\n'] + b).drop_last() =~= a);
        assert(split_lines(a + seq!['\n'] + b) =~= split_lines(a).push(b));
    } else {
        let b1 = b.drop_last();
        assert(no_newline(b1)) by {
            assert forall|i: int| 0 <= i < b1.len() implies #[trigger] b1[i] != '\n' by {
                assert(b1[i] == b[i]);
            }
        }
        lemma_split_after_newline(a, b1);
        let x = a + seq!['\n'] + b;
        assert(x.drop_last() =~= a + seq!['\n'] + b1);
        assert(b[b.len() - 1] != '\n');
        assert(x.last() == b.last());
        assert(b1.push(b.last()) =~= b);
        let prev = split_lines(a).push(b1);
        assert(split_lines(x) == prev.update(prev.len() - 1, prev.last().push(x.last())));
        assert(split_lines(a + seq!['\n'] + b) =~= split_lines(a).push(b));
    }
}

/// Text without line feeds is one piece.
proof fn lemma_split_single(b: Seq<char>)
    requires
        no_newline(b),
    ensures
        split_lines(b) == seq![b],
    decreases b.len(),
{
    if b.len() == 0 {
        assert(b =~= Seq::<char>::empty());
        assert(split_lines(b) =~= seq![b]);
    } else {
        let b1 = b.drop_last();
        assert(no_newline(b1)) by {
            assert forall|i: int| 0 <= i < b1.len() implies #[trigger] b1[i] != '\n' by {
                assert(b1[i] == b[i]);
            }
        }
        lemma_split_single(b1);
        assert(b[b.len() - 1] != '\n');
        assert(b1.push(b.last()) =~= b);
        assert(split_lines(b) == seq![b1].update(0, b1.push(b.last())));
        assert(split_lines(b) =~= seq![b]);
    }
}

/// Splitting undoes joining, for pieces without line feeds.
pub proof fn lemma_split_join(ls: Seq<Seq<char>>)
    requires
        ls.len() > 0,
        forall|k: int| 0 <= k < ls.len() ==> no_newline(#[trigger] ls[k]),
    ensures
        split_lines(join_lines(ls)) == ls,
    decreases ls.len(),
{
    if ls.len() == 1 {
        lemma_split_single(ls[0]);
        assert(seq![ls[0]] =~= ls);
    } else {
        let init = ls.drop_last();
        assert forall|k: int| 0 <= k < init.len() implies no_newline(#[trigger] init[k]) by {
            assert(init[k] == ls[k]);
        }
        lemma_split_join(init);
        lemma_split_after_newline(join_lines(init), ls.last());
        assert(init.push(ls.last()) =~= ls);
    }
}

/// Executable `char::is_whitespace`.
pub fn is_ws_char(c: char) -> (r: bool)
    ensures
        r == is_ws(c),
{
    let n = c as u32;
    (0x9 <= n && n <= 0xD) || n == 0x20 || n == 0x85 || n == 0xA0 || n == 0x1680 || (0x2000 <= n
        && n <= 0x200A) || n == 0x2028 || n == 0x2029 || n == 0x202F || n == 0x205F || n == 0x3000
}

/// Length of the whitespace prefix of `s`.
pub fn lead_ws_len(s: &[char]) -> (k: usize)
    ensures
        k == lead_ws(s@),
{
    let mut k: usize = 0;
    while k < s.len() && is_ws_char(s[k])
        invariant
            k <= s.len(),
            forall|i: int| 0 <= i < k ==> is_ws(#[trigger] s@[i]),
        decreases s.len() - k,
    {
        k = k + 1;
    }
    proof {
        lemma_lead_ws(s@, k as int);
    }
    k
}

/// Length of the whitespace suffix of `s`.
pub fn trail_ws_len(s: &[char]) -> (k: usize)
    ensures
        k == trail_ws(s@),
{
    let mut k: usize = 0;
    while k < s.len() && is_ws_char(s[s.len() - k - 1])
        invariant
            k <= s.len(),
            forall|i: int| s@.len() - k <= i < s@.len() ==> is_ws(#[trigger] s@[i]),
        decreases s.len() - k,
    {
        k = k + 1;
    }
    proof {
        lemma_trail_ws(s@, k as int);
    }
    k
}

/// A copy of `s[a..b]`.
pub fn slice_vec(s: &[char], a: usize, b: usize) -> (r: Vec<char>)
    requires
        a <= b <= s.len(),
    ensures
        r@ == s@.subrange(a as int, b as int),
{
    let mut r: Vec<char> = Vec::new();
    let mut i = a;
    while i < b
        invariant
            a <= i <= b <= s.len(),
            r@ == s@.subrange(a as int, i as int),
        decreases b - i,
    {
        r.push(s[i]);
        i = i + 1;
    }
    r
}

/// Appends all of `p` to `v`.
pub fn push_all(v: &mut Vec<char>, p: &[char])
    ensures
        final(v)@ == old(v)@ + p@,
{
    let mut i: usize = 0;
    while i < p.len()
        invariant
            i <= p.len(),
            v@ == old(v)@ + p@.take(i as int),
        decreases p.len() - i,
    {
        v.push(p[i]);
        i = i + 1;
        assert(p@.take(i as int) == p@.take(i - 1) + seq![p@[i - 1]]);
    }
    assert(p@.take(p@.len() as int) == p@);
}

/// `a` followed by `b`, as a new vector.
pub fn concat(a: &[char], b: &[char]) -> (r: Vec<char>)
    ensures
        r@ == a@ + b@,
{
    let mut r = slice_vec(a, 0, a.len());
    assert(a@.subrange(0, a@.len() as int) == a@);
    push_all(&mut r, b);
    r
}

/// Executable `trim_start`.
pub fn trim_start_vec(s: &[char]) -> (r: Vec<char>)
    ensures
        r@ == trim_start(s@),
{
    proof {
        lemma_lead_ws_bounds(s@);
    }
    let k = lead_ws_len(s);
    slice_vec(s, k, s.len())
}

/// Executable `trim`.
pub fn trim_vec(s: &[char]) -> (r: Vec<char>)
    ensures
        r@ == trim(s@),
{
    let t = trim_start_vec(s);
    proof {
        lemma_trail_ws_bounds(t@);
    }
    let k = trail_ws_len(t.as_slice());
    let r = slice_vec(t.as_slice(), 0, t.len() - k);
    r
}

/// Executable `starts_with`.
pub fn starts_with_vec(s: &[char], p: &[char]) -> (r: bool)
    ensures
        r == starts_with(s@, p@),
{
    if p.len() > s.len() {
        return false;
    }
    let mut i: usize = 0;
    while i < p.len()
        invariant
            p.len() <= s.len(),
            i <= p.len(),
            forall|j: int| 0 <= j < i ==> s@[j] == p@[j],
        decreases p.len() - i,
    {
        if s[i] != p[i] {
            assert(s@.take(p@.len() as int)[i as int] != p@[i as int]);
            return false;
        }
        i = i + 1;
    }
    assert(s@.take(p@.len() as int) =~= p@);
    true
}

/// Does `p` occur in `s` at position `i`?
fn matches_at(s: &[char], p: &[char], i: usize) -> (r: bool)
    requires
        i + p.len() <= s.len(),
    ensures
        r == (s@.subrange(i as int, i + p.len()) == p@),
{
    let mut k: usize = 0;
    while k < p.len()
        invariant
            i + p.len() <= s.len(),
            k <= p.len(),
            forall|j: int| 0 <= j < k ==> s@[i + j] == p@[j],
        decreases p.len() - k,
    {
        if s[i + k] != p[k] {
            assert(s@.subrange(i as int, i + p.len())[k as int] != p@[k as int]);
            return false;
        }
        k = k + 1;
    }
    assert(s@.subrange(i as int, i + p.len()) =~= p@);
    true
}

/// Executable `find`.
pub fn find_vec(s: &[char], p: &[char]) -> (r: Option<usize>)
    ensures
        match r {
            Some(k) => find(s@, p@) == Some(k as int),
            None => find(s@, p@) is None,
        },
{
    if p.len() > s.len() {
        return None;
    }
    if p.len() == 0 {
        assert(s@.subrange(0, 0) =~= p@);
        return Some(0);
    }
    let mut i: usize = 0;
    while i <= s.len() - p.len()
        invariant
            1 <= p.len() <= s.len(),
            i <= s.len() - p.len() + 1,
            find(s@, p@) == find_from(s@, p@, i as int),
        decreases s.len() - i,
    {
        if matches_at(s, p, i) {
            return Some(i);
        }
        i = i + 1;
    }
    None
}

/// Executable `contains`.
pub fn contains_vec(s: &[char], p: &[char]) -> (r: bool)
    ensures
        r == contains(s@, p@),
{
    find_vec(s, p).is_some()
}

/// Executable `split_lines`.
pub fn split_lines_vec(s: &[char]) -> (r: Vec<Vec<char>>)
    ensures
        seqs_view(r@) == split_lines(s@),
{
    let mut done: Vec<Vec<char>> = Vec::new();
    let mut cur: Vec<char> = Vec::new();
    let mut i: usize = 0;
    assert(s@.take(0) =~= Seq::<char>::empty());
    while i < s.len()
        invariant
            i <= s.len(),
            split_lines(s@.take(i as int)) == seqs_view(done@).push(cur@),
        decreases s.len() - i,
    {
        let c = s[i];
        let ghost prev = seqs_view(done@).push(cur@);
        assert(s@.take(i + 1).drop_last() =~= s@.take(i as int));
        assert(s@.take(i + 1).last() == c);
        if c == '\n' {
            done.push(cur);
            cur = Vec::new();
            assert(seqs_view(done@).push(cur@) =~= prev.push(Seq::<char>::empty()));
        } else {
            cur.push(c);
            assert(seqs_view(done@).push(cur@) =~= prev.update(prev.len() - 1, prev.last().push(c)));
        }
        i = i + 1;
    }
    assert(s@.take(s@.len() as int) =~= s@);
    done.push(cur);
    assert(seqs_view(done@) =~= split_lines(s@));
    done
}

/// Executable `join_lines`.
pub fn join_lines_vec(ls: &Vec<Vec<char>>) -> (r: Vec<char>)
    ensures
        r@ == join_lines(seqs_view(ls@)),
{
    let mut r: Vec<char> = Vec::new();
    let mut i: usize = 0;
    while i < ls.len()
        invariant
            i <= ls.len(),
            r@ == join_lines(seqs_view(ls@).take(i as int)),
        decreases ls.len() - i,
    {
        let ghost t = seqs_view(ls@).take(i + 1);
        assert(t.drop_last() =~= seqs_view(ls@).take(i as int));
        assert(t.last() == ls@[i as int]@);
        if i > 0 {
            r.push('\n');
        } else {
            assert(t.len() == 1);
        }
        push_all(&mut r, ls[i].as_slice());
        i = i + 1;
    }
    assert(seqs_view(ls@).take(ls@.len() as int) =~= seqs_view(ls@));
    r
}

/// Executable `repeat`.
pub fn repeat_vec(s: &[char], n: usize) -> (r: Vec<char>)
    ensures
        r@ == repeat(s@, n as nat),
{
    let mut r: Vec<char> = Vec::new();
    let mut i: usize = 0;
    while i < n
        invariant
            i <= n,
            r@ == repeat(s@, i as nat),
        decreases n - i,
    {
        push_all(&mut r, s);
        i = i + 1;
    }
    r
}

/// The characters of `s`, in order.
pub fn chars_of(s: &str) -> (r: Vec<char>)
    ensures
        r@ == s@,
{
    let mut r: Vec<char> = Vec::new();
    for c in it: s.chars()
        invariant
            r@ == it.seq().take(it.index() as int),
    {
        r.push(c);
        assert(it.seq().take(it.index() + 1) =~= it.seq().take(it.index() as int).push(c));
    }
    r
}

/// A `String` holding exactly the characters of `v`.
/// Trusted: `String: FromIterator<&char>` appends each character in order.
#[verifier::external_body]
pub(crate) fn string_of(v: &[char]) -> (r: String)
    ensures
        r@ == v@,
{
    v.iter().collect()
}

/// What `char::to_uppercase` yields for `c`: Unicode's full uppercase
/// mapping of one character, which may be several characters long.
pub uninterp spec fn uppercase_of(c: char) -> Seq<char>;

/// `char::to_uppercase`, collected into a vector.
/// Trusted: the vector holds what the std iterator yields, which is a
/// function of `c` alone; what that mapping is, is not stated here.
#[verifier::external_body]
pub(crate) fn upper_chars(c: char) -> (r: Vec<char>)
    ensures
        r@ == uppercase_of(c),
{
    c.to_uppercase().collect()
}

/// Whether `a` and `b` hold the same characters.
pub fn same_chars(a: &[char], b: &[char]) -> (r: bool)
    ensures
        r == (a@ == b@),
{
    if a.len() != b.len() {
        return false;
    }
    let mut i: usize = 0;
    while i < a.len()
        invariant
            a.len() == b.len(),
            i <= a.len(),
            forall|j: int| 0 <= j < i ==> a@[j] == b@[j],
        decreases a.len() - i,
    {
        if a[i] != b[i] {
            return false;
        }
        i = i + 1;
    }
    assert(a@ =~= b@);
    true
}

} // verus!
