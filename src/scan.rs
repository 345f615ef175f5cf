//! Link extraction: finds every `[label](target)` token in a document's text.
//!
//! A token is `[`, any characters but `]`, `]`, `(`, at least one character
//! but `)`, and `)`, all on one line. Tokens are taken leftmost first and do
//! not overlap: after a token the search goes on behind its closing `)`.
use vstd::prelude::*;

use crate::reference::{Reference, ReferenceView};
use crate::text::chars_of;

verus! {

/// The first index at or after `from` that holds `c` or a line break;
/// `s.len()` when there is none.
pub open spec fn stop_index(s: Seq<char>, c: char, from: int) -> int
    decreases s.len() - from,
{
    if from < 0 || from >= s.len() {
        s.len() as int
    } else if s[from] == c || s[from] == '\n' {
        from
    } else {
        stop_index(s, c, from + 1)
    }
}

/// The link token that starts at index `i` of `s`, if one does: the bounds
/// `(start, end)` of its target text.
pub open spec fn token_at(s: Seq<char>, i: int) -> Option<(int, int)> {
    if 0 <= i < s.len() && s[i] == '[' {
        let close = stop_index(s, ']', i + 1);
        if close + 1 < s.len() && s[close] == ']' && s[close + 1] == '(' {
            let end = stop_index(s, ')', close + 2);
            if end < s.len() && s[end] == ')' && end > close + 2 {
                Some((close + 2, end))
            } else {
                None
            }
        } else {
            None
        }
    } else {
        None
    }
}

/// The tokens found by scanning `s` from index `i`, each as
/// `(start, target_start, target_end)`.
pub open spec fn tokens_from(s: Seq<char>, i: int) -> Seq<(int, int, int)>
    decreases s.len() - i,
{
    if i < 0 || i >= s.len() {
        Seq::empty()
    } else {
        match token_at(s, i) {
            Some(t) => {
                proof {
                    lemma_token_bounds(s, i);
                }
                seq![(i, t.0, t.1)] + tokens_from(s, t.1 + 1)
            },
            None => tokens_from(s, i + 1),
        }
    }
}

/// Number of line breaks among the first `i` characters of `s`.
pub open spec fn breaks_before(s: Seq<char>, i: int) -> nat
    decreases i,
{
    if i <= 0 || i > s.len() {
        0
    } else {
        breaks_before(s, i - 1) + if s[i - 1] == '\n' {
            1nat
        } else {
            0nat
        }
    }
}

/// Index of the first character of the line that holds index `i`.
pub open spec fn line_start(s: Seq<char>, i: int) -> int
    decreases i,
{
    if i <= 0 || i > s.len() {
        0
    } else if s[i - 1] == '\n' {
        i
    } else {
        line_start(s, i - 1)
    }
}

/// The reference for the token `t` of the text `s` of the document `path`.
pub open spec fn token_reference(path: Seq<char>, s: Seq<char>, t: (int, int, int)) -> ReferenceView {
    ReferenceView {
        path,
        line: breaks_before(s, t.0) + 1,
        column: (t.0 - line_start(s, t.0) + 1) as nat,
        link_text: s.subrange(t.1, t.2),
    }
}

/// Every link of the text `s` of the document `path`, in document order.
pub open spec fn links_in(path: Seq<char>, s: Seq<char>) -> Seq<ReferenceView> {
    tokens_from(s, 0).map_values(|t: (int, int, int)| token_reference(path, s, t))
}

pub proof fn lemma_stop_index(s: Seq<char>, c: char, from: int)
    requires
        0 <= from,
    ensures
        from <= stop_index(s, c, from) <= s.len() || (from > s.len() && stop_index(s, c, from)
            == s.len()),
        forall|k: int| from <= k < stop_index(s, c, from) ==> s[k] != c && s[k] != '\n',
        stop_index(s, c, from) < s.len() ==> s[stop_index(s, c, from)] == c || s[stop_index(
            s,
            c,
            from,
        )] == '\n',
    decreases s.len() - from,
{
    if from < s.len() && !(s[from] == c || s[from] == '\n') {
        lemma_stop_index(s, c, from + 1);
    }
}

/// A token runs from its `[` to its `)` on one line.
pub proof fn lemma_token_bounds(s: Seq<char>, i: int)
    requires
        token_at(s, i) is Some,
    ensures
        token_at(s, i) matches Some(t) ==> {
            &&& i + 3 < t.0 + 1 <= t.1 < s.len()
            &&& s[i] == '['
            &&& s[t.1] == ')'
            &&& forall|k: int| i <= k <= t.1 ==> s[k] != '\n'
        },
{
    let close = stop_index(s, ']', i + 1);
    lemma_stop_index(s, ']', i + 1);
    lemma_stop_index(s, ')', close + 2);
}

proof fn lemma_same_line(s: Seq<char>, i: int, j: int)
    requires
        0 <= i <= j <= s.len(),
        forall|k: int| i <= k < j ==> s[k] != '\n',
    ensures
        breaks_before(s, j) == breaks_before(s, i),
        line_start(s, j) == line_start(s, i),
    decreases j - i,
{
    if i < j {
        lemma_same_line(s, i, j - 1);
    }
}

proof fn lemma_breaks_bounded(s: Seq<char>, i: int)
    requires
        0 <= i <= s.len(),
    ensures
        breaks_before(s, i) <= i,
        0 <= line_start(s, i) <= i,
    decreases i,
{
    if i > 0 {
        lemma_breaks_bounded(s, i - 1);
    }
}

/// A text without any link token has no links.
pub proof fn lemma_no_token_no_links(path: Seq<char>, s: Seq<char>)
    requires
        forall|i: int| 0 <= i < s.len() ==> token_at(s, i) is None,
    ensures
        links_in(path, s) == Seq::<ReferenceView>::empty(),
{
    lemma_no_token_from(s, 0);
}

proof fn lemma_no_token_from(s: Seq<char>, i: int)
    requires
        0 <= i,
        forall|k: int| 0 <= k < s.len() ==> token_at(s, k) is None,
    ensures
        tokens_from(s, i) == Seq::<(int, int, int)>::empty(),
    decreases s.len() - i,
{
    if i < s.len() {
        lemma_no_token_from(s, i + 1);
    }
}

/// Scanning one unchanged text twice gives the same references in the
/// same order: what the scan yields depends on the path and the text alone.
pub proof fn lemma_scan_repeatable(path: Seq<char>, first: Seq<char>, second: Seq<char>)
    requires
        first == second,
    ensures
        links_in(path, first) == links_in(path, second),
{
}

/// `stop_index` of `s` from `from`, computed.
pub(crate) fn find_stop(s: &Vec<char>, c: char, from: usize) -> (r: usize)
    requires
        from <= s.len(),
    ensures
        r == stop_index(s@, c, from as int),
{
    let mut k: usize = from;
    while k < s.len()
        invariant
            from <= k <= s.len(),
            stop_index(s@, c, from as int) == stop_index(s@, c, k as int),
        decreases s.len() - k,
    {
        if s[k] == c || s[k] == '\n' {
            return k;
        }
        k = k + 1;
    }
    k
}

/// Every link token of `content`, the text of the document at `path`, in
/// document order.
pub fn scan_links(path: &str, content: &str) -> (r: Vec<Reference>)
    ensures
        r@.map_values(|x: Reference| x@) == links_in(path@, content@),
{
    let cs = chars_of(content);
    let ghost s = cs@;
    let mut out: Vec<Reference> = Vec::new();
    let ghost mut done: Seq<(int, int, int)> = Seq::empty();
    let mut i: usize = 0;
    let mut breaks: usize = 0;
    let mut start: usize = 0;
    while i < cs.len()
        invariant
            s == cs@,
            s == content@,
            i <= s.len(),
            breaks == breaks_before(s, i as int),
            start == line_start(s, i as int),
            tokens_from(s, 0) == done + tokens_from(s, i as int),
            out@.map_values(|x: Reference| x@) == done.map_values(
                |t: (int, int, int)| token_reference(path@, s, t),
            ),
        decreases s.len() - i,
    {
        proof {
            lemma_breaks_bounded(s, i as int);
        }
        let c = cs[i];
        if c == '\n' {
            breaks = breaks + 1;
            start = i + 1;
            i = i + 1;
        } else {
            let mut next = i + 1;
            if c == '[' {
                let close = find_stop(&cs, ']', i + 1);
                proof {
                    lemma_stop_index(s, ']', i + 1);
                }
                if close < cs.len() && cs[close] == ']' && close + 1 < cs.len() && cs[close + 1] == '(' {
                    let end = find_stop(&cs, ')', close + 2);
                    proof {
                        lemma_stop_index(s, ')', close + 2);
                    }
                    if end < cs.len() && cs[end] == ')' && end > close + 2 {
                        let ghost t = (i as int, close + 2 as int, end as int);
                        assert(token_at(s, i as int) == Some((close + 2 as int, end as int)));
                        let link_text = content.substring_char(close + 2, end).to_owned();
                        let r = Reference::new(path.to_owned(), breaks + 1, i - start + 1, link_text);
                        assert(r@ == token_reference(path@, s, t));
                        proof {
                            lemma_token_bounds(s, i as int);
                            lemma_same_line(s, i as int, end + 1);
                            assert(done.push(t).map_values(
                                |t: (int, int, int)| token_reference(path@, s, t),
                            ) =~= done.map_values(
                                |t: (int, int, int)| token_reference(path@, s, t),
                            ).push(token_reference(path@, s, t)));
                            done = done.push(t);
                        }
                        out.push(r);
                        next = end + 1;
                    }
                }
            }
            proof {
                if next == i + 1 {
                    assert(token_at(s, i as int) is None);
                } else {
                    assert(tokens_from(s, i as int) == seq![done.last()] + tokens_from(
                        s,
                        next as int,
                    ));
                }
            }
            i = next;
        }
    }
    proof {
        assert(out@.map_values(|x: Reference| x@) =~= links_in(path@, content@));
    }
    out
}


/// `stop_index` reads `s` only up to the index it returns.
pub proof fn lemma_stop_index_agrees(s: Seq<char>, t: Seq<char>, c: char, from: int)
    requires
        0 <= from,
        stop_index(s, c, from) < s.len(),
        stop_index(s, c, from) < t.len(),
        forall|k: int| from <= k <= stop_index(s, c, from) ==> t[k] == s[k],
    ensures
        stop_index(t, c, from) == stop_index(s, c, from),
    decreases s.len() - from,
{
    lemma_stop_index(s, c, from);
    assert(t[from] == s[from]);
    if !(s[from] == c || s[from] == '\n') {
        lemma_stop_index_agrees(s, t, c, from + 1);
    }
}

/// `stop_index` is the first stop: a `c` or a line break at `k` bounds it.
pub proof fn lemma_stop_index_at_most(s: Seq<char>, c: char, from: int, k: int)
    requires
        0 <= from <= k < s.len(),
        s[k] == c || s[k] == '\n',
    ensures
        stop_index(s, c, from) <= k,
{
    lemma_stop_index(s, c, from);
}

/// Where the characters from `from` up to `r` are neither `c` nor a line
/// break and `r` holds `c`, the search stops at `r`.
pub proof fn lemma_stop_index_exact(s: Seq<char>, c: char, from: int, r: int)
    requires
        0 <= from <= r < s.len(),
        s[r] == c,
        forall|k: int| from <= k < r ==> s[k] != c && s[k] != '\n',
    ensures
        stop_index(s, c, from) == r,
{
    lemma_stop_index(s, c, from);
    lemma_stop_index_at_most(s, c, from, r);
}

/// The tokens found from `j` start at or after `j`, in increasing order.
pub proof fn lemma_tokens_after(s: Seq<char>, j: int, m: int)
    requires
        0 <= j,
        0 <= m < tokens_from(s, j).len(),
    ensures
        tokens_from(s, j)[m].0 >= j,
        token_at(s, tokens_from(s, j)[m].0) == Some(
            (tokens_from(s, j)[m].1, tokens_from(s, j)[m].2),
        ),
    decreases s.len() - j,
{
    if j < s.len() {
        match token_at(s, j) {
            Some(t) => {
                lemma_token_bounds(s, j);
                if m > 0 {
                    lemma_tokens_after(s, t.1 + 1, m - 1);
                }
            },
            None => {
                lemma_tokens_after(s, j + 1, m);
            },
        }
    }
}

/// Line numbers and line starts depend only on the text before the index.
pub proof fn lemma_position_prefix(s: Seq<char>, t: Seq<char>, i: int)
    requires
        0 <= i <= s.len(),
        i <= t.len(),
        forall|k: int| 0 <= k < i ==> t[k] == s[k],
    ensures
        breaks_before(t, i) == breaks_before(s, i),
        line_start(t, i) == line_start(s, i),
    decreases i,
{
    if i > 0 {
        lemma_position_prefix(s, t, i - 1);
    }
}

/// Let a token of `s` start at `i` with its target from `a` on, and let `t`
/// agree with `s` before `a`. A scan position `j` before `i` from which the
/// scan of `s` reaches `i` sees the same token, or none, in `t`.
proof fn lemma_token_agrees_before(s: Seq<char>, t: Seq<char>, j: int, i: int, a: int, b: int)
    requires
        0 <= j < i,
        token_at(s, i) == Some((a, b)),
        a <= t.len(),
        forall|k: int| 0 <= k < a ==> t[k] == s[k],
        token_at(s, j) matches Some(u) ==> u.1 < i,
    ensures
        token_at(t, j) == token_at(s, j),
{
    lemma_token_bounds(s, i);
    let close_i = a - 2;
    lemma_stop_index(s, ']', i + 1);
    assert(stop_index(s, ']', i + 1) == close_i);
    if s[j] == '[' {
        lemma_stop_index(s, ']', j + 1);
        lemma_stop_index_at_most(s, ']', j + 1, close_i);
        let close_j = stop_index(s, ']', j + 1);
        lemma_stop_index_agrees(s, t, ']', j + 1);
        if close_j == close_i {
            lemma_stop_index(s, ')', a);
            assert(token_at(s, j) == Some((a, b)));
        } else if close_j + 1 < s.len() && s[close_j] == ']' && s[close_j + 1] == '(' {
            lemma_stop_index(s, ')', close_j + 2);
            lemma_stop_index(s, ')', a);
            lemma_stop_index_at_most(s, ')', close_j + 2, b);
            let end_j = stop_index(s, ')', close_j + 2);
            if end_j < a {
                lemma_stop_index_agrees(s, t, ')', close_j + 2);
            } else {
                assert(end_j == b);
                assert(token_at(s, j) == Some((close_j + 2, b)));
            }
        }
    }
}

/// The scan of `t` takes the same steps as the scan of `s` up to `i`, the
/// start of a token of `s` whose target begins at `a`, where `t` agrees
/// with `s` before `a`.
pub proof fn lemma_scan_agrees_before(s: Seq<char>, t: Seq<char>, j: int, m: int)
    requires
        0 <= j,
        0 <= m < tokens_from(s, j).len(),
        tokens_from(s, j)[m].1 <= t.len(),
        forall|k: int| 0 <= k < tokens_from(s, j)[m].1 ==> t[k] == s[k],
    ensures
        tokens_from(s, j) == tokens_from(s, j).take(m) + tokens_from(s, tokens_from(s, j)[m].0),
        tokens_from(t, j) == tokens_from(s, j).take(m) + tokens_from(t, tokens_from(s, j)[m].0),
    decreases s.len() - j,
{
    let i = tokens_from(s, j)[m].0;
    let a = tokens_from(s, j)[m].1;
    let b = tokens_from(s, j)[m].2;
    lemma_tokens_after(s, j, m);
    lemma_token_bounds(s, i);
    if j == i {
        assert(m == 0) by {
            if m > 0 {
                let u = token_at(s, j)->0;
                lemma_tokens_after(s, u.1 + 1, m - 1);
            }
        }
        assert(tokens_from(s, j).take(0) =~= Seq::<(int, int, int)>::empty());
        assert(tokens_from(s, j) =~= Seq::<(int, int, int)>::empty() + tokens_from(s, j));
        assert(tokens_from(t, j) =~= Seq::<(int, int, int)>::empty() + tokens_from(t, j));
    } else {
        assert(j < i);
        match token_at(s, j) {
            Some(u) => {
                lemma_token_bounds(s, j);
                assert(m > 0);
                let rest = tokens_from(s, u.1 + 1);
                assert(rest[m - 1] == tokens_from(s, j)[m]);
                lemma_tokens_after(s, u.1 + 1, m - 1);
                lemma_token_agrees_before(s, t, j, i, a, b);
                lemma_scan_agrees_before(s, t, u.1 + 1, m - 1);
                assert(tokens_from(s, j).take(m) =~= seq![(j, u.0, u.1)] + rest.take(m - 1));
            },
            None => {
                assert(tokens_from(s, j) == tokens_from(s, j + 1));
                lemma_token_agrees_before(s, t, j, i, a, b);
                lemma_scan_agrees_before(s, t, j + 1, m);
            },
        }
    }
}

/// Tokens do not overlap: an earlier token ends before a later one starts.
pub proof fn lemma_tokens_ordered(s: Seq<char>, j: int, m1: int, m2: int)
    requires
        0 <= j,
        0 <= m1 < m2 < tokens_from(s, j).len(),
    ensures
        tokens_from(s, j)[m1].2 < tokens_from(s, j)[m2].0,
    decreases s.len() - j,
{
    if j < s.len() {
        match token_at(s, j) {
            Some(u) => {
                lemma_token_bounds(s, j);
                if m1 == 0 {
                    lemma_tokens_after(s, u.1 + 1, m2 - 1);
                } else {
                    lemma_tokens_ordered(s, u.1 + 1, m1 - 1, m2 - 1);
                }
            },
            None => {
                lemma_tokens_ordered(s, j + 1, m1, m2);
            },
        }
    }
}

} // verus!
