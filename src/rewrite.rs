//! The text work of a move: where a recorded link stands in a document,
//! how it is rewritten, and what a moved link's new target text is.
//!
//! A rewrite replaces the first `](old)` on the recorded line by `](new)`
//! and leaves every other character of the document as it was. Where the
//! line holds no `](old)`, nothing is rewritten and the caller reports the
//! skipped reference.
use vstd::prelude::*;

use crate::error::MdrefError;
use crate::paths::{
    file_name_of, join, opt_text, parent_of, path_file_name, path_join, path_parent,
    relative_path, relative_text,
};
use crate::reference::{Reference, ReferenceView};
use crate::scan::{
    find_stop, lemma_position_prefix, lemma_scan_agrees_before, lemma_stop_index_agrees,
    lemma_stop_index_exact, lemma_token_bounds, lemma_tokens_after, lemma_tokens_ordered,
    links_in, stop_index, token_at, token_reference, tokens_from,
};
use crate::text::{chars_of, decimal, decimal_string, same_text};

verus! {

/// Index of the first character of line `n` (1-based) of `s`: past the end
/// of `s` where `s` has fewer than `n` lines.
pub open spec fn line_begin(s: Seq<char>, n: int) -> int
    decreases n,
{
    if n <= 1 {
        0
    } else {
        stop_index(s, '\n', line_begin(s, n - 1)) + 1
    }
}

/// Whether `s` has a line `n` (1-based), counting lines as std's
/// `str::lines` does: a final line break ends the last line.
pub open spec fn has_line(s: Seq<char>, n: int) -> bool {
    n >= 1 && line_begin(s, n) < s.len()
}

/// The text `](link)` that a link token with the target `link` ends with.
pub open spec fn link_pattern(link: Seq<char>) -> Seq<char> {
    seq![']', '('] + link + seq![')']
}

/// The first index `p` with `from <= p` and `p + pat.len() <= to` at which
/// `pat` stands in `s`.
pub open spec fn first_match(s: Seq<char>, pat: Seq<char>, from: int, to: int) -> Option<int>
    decreases to + 1 - from,
{
    if from < 0 || from + pat.len() > to || to > s.len() {
        None
    } else if s.subrange(from, from + pat.len()) == pat {
        Some(from)
    } else {
        first_match(s, pat, from + 1, to)
    }
}

/// The text `s` with the first `](old)` on line `n` replaced by `](new)`;
/// nothing where that line holds no `](old)`.
pub open spec fn rewritten_text(s: Seq<char>, n: int, old: Seq<char>, new: Seq<char>) -> Option<
    Seq<char>,
> {
    let begin = line_begin(s, n);
    let end = stop_index(s, '\n', begin);
    match first_match(s, link_pattern(old), begin, end) {
        Some(p) => Some(s.subrange(0, p) + link_pattern(new) + s.subrange(
            p + link_pattern(old).len(),
            s.len() as int,
        )),
        None => None,
    }
}

/// The message of the error for a line `line` that the file `path` does not have.
pub open spec fn invalid_line_message(line: nat, path: Seq<char>) -> Seq<char> {
    "Line number "@ + decimal(line) + " out of range for file "@ + path
}

/// Whether `e` is a path error with the message `msg`.
pub open spec fn is_path_error(e: MdrefError, msg: Seq<char>) -> bool {
    e matches MdrefError::Path(m) && m@ == msg
}

/// What rewriting the link `old` recorded on line `line` of `content`, the
/// text of the file `path`, to `new` comes to: an invalid-line error where
/// the text has no such line, else the rewritten text, or nothing where the
/// line holds no `](old)`.
pub open spec fn is_rewrite_of(
    res: Result<Option<String>, MdrefError>,
    path: Seq<char>,
    content: Seq<char>,
    line: int,
    old: Seq<char>,
    new: Seq<char>,
) -> bool {
    match res {
        Err(e) => !has_line(content, line) && (e matches MdrefError::InvalidLine(m) && m@
            == invalid_line_message(line as nat, path)),
        Ok(o) => has_line(content, line) && opt_text(o) == rewritten_text(content, line, old, new),
    }
}

/// The new target text of a link of the moved document (or the message of
/// the path error): a link to the document itself names the new file name,
/// any other becomes the relative path from the new directory to `target`.
pub open spec fn outgoing_link_text(target: Seq<char>, old_file: Seq<char>, new_file: Seq<char>) -> Result<
    Seq<char>,
    Seq<char>,
> {
    if target == old_file {
        match path_file_name(new_file) {
            Some(n) => Ok(n),
            None => Err("No file name"@),
        }
    } else {
        match path_parent(new_file) {
            Some(d) => Ok(relative_text(d, target)),
            None => Err("No parent directory"@),
        }
    }
}

proof fn lemma_line_begin_grows(s: Seq<char>, k: int, n: int)
    requires
        1 <= k <= n,
        line_begin(s, k) >= s.len(),
    ensures
        line_begin(s, n) >= s.len(),
    decreases n - k,
{
    if k < n {
        lemma_line_begin_grows(s, k, n - 1);
        assert(stop_index(s, '\n', line_begin(s, n - 1)) == s.len());
    }
}

/// Whether `pat` stands in `s` at index `p`.
fn matches_at(s: &Vec<char>, pat: &Vec<char>, p: usize) -> (r: bool)
    requires
        p + pat.len() <= s.len(),
    ensures
        r == (s@.subrange(p as int, p + pat.len()) == pat@),
{
    let mut i: usize = 0;
    while i < pat.len()
        invariant
            p + pat.len() <= s.len(),
            i <= pat.len(),
            s@.subrange(p as int, p + i) == pat@.take(i as int),
        decreases pat.len() - i,
    {
        if s[p + i] != pat[i] {
            assert(s@.subrange(p as int, p + pat.len())[i as int] != pat@[i as int]);
            return false;
        }
        assert(s@.subrange(p as int, p + i + 1) =~= s@.subrange(p as int, p + i).push(
            s@[p + i],
        ));
        assert(pat@.take(i + 1) =~= pat@.take(i as int).push(pat@[i as int]));
        i = i + 1;
    }
    assert(pat@.take(i as int) =~= pat@);
    true
}

/// The characters of `](link)`.
fn pattern_chars(link: &str) -> (r: Vec<char>)
    ensures
        r@ == link_pattern(link@),
{
    let mut r: Vec<char> = Vec::new();
    r.push(']');
    r.push('(');
    let cs = chars_of(link);
    let mut i: usize = 0;
    while i < cs.len()
        invariant
            cs@ == link@,
            i <= cs.len(),
            r@ == seq![']', '('] + cs@.take(i as int),
        decreases cs.len() - i,
    {
        r.push(cs[i]);
        assert(cs@.take(i + 1) =~= cs@.take(i as int).push(cs@[i as int]));
        i = i + 1;
    }
    r.push(')');
    assert(cs@.take(i as int) =~= cs@);
    assert(r@ =~= link_pattern(link@));
    r
}

/// The error for a line `line` that the file `path` does not have.
fn invalid_line(line: usize, path: &str) -> (e: MdrefError)
    ensures
        e matches MdrefError::InvalidLine(m) && m@ == invalid_line_message(line as nat, path@),
{
    let mut m = "Line number ".to_owned();
    m.append(decimal_string(line).as_str());
    m.append(" out of range for file ");
    m.append(path);
    MdrefError::InvalidLine(m)
}

/// Rewrites the link with the target text `old_link` that was recorded on
/// line `line` of `content`, the text of the file `path`, so that its
/// target reads `new_link`.
///
/// Fails where the text has no line `line`. Gives the new text, or nothing
/// where that line holds no `](old_link)`.
pub fn replace_link_in_text(
    path: &str,
    content: &str,
    line: usize,
    old_link: &str,
    new_link: &str,
) -> (r: Result<Option<String>, MdrefError>)
    requires
        line >= 1,
    ensures
        is_rewrite_of(r, path@, content@, line as int, old_link@, new_link@),
{
    let cs = chars_of(content);
    let ghost s = cs@;
    let mut k: usize = 1;
    let mut begin: usize = 0;
    while k < line
        invariant
            s == cs@,
            s == content@,
            1 <= k <= line,
            begin == line_begin(s, k as int),
            begin <= s.len(),
        decreases line - k,
    {
        if begin >= cs.len() {
            proof {
                lemma_line_begin_grows(s, k as int, line as int);
            }
            return Err(invalid_line(line, path));
        }
        let e = find_stop(&cs, '\n', begin);
        proof {
            crate::scan::lemma_stop_index(s, '\n', begin as int);
        }
        if e >= cs.len() {
            proof {
                lemma_line_begin_grows(s, k + 1, line as int);
            }
            return Err(invalid_line(line, path));
        }
        begin = e + 1;
        k = k + 1;
    }
    if begin >= cs.len() {
        return Err(invalid_line(line, path));
    }
    let end = find_stop(&cs, '\n', begin);
    proof {
        crate::scan::lemma_stop_index(s, '\n', begin as int);
    }
    let pat = pattern_chars(old_link);
    let mut p: usize = begin;
    while p <= end && pat.len() <= end - p
        invariant
            s == cs@,
            s == content@,
            pat@ == link_pattern(old_link@),
            begin <= p <= end + 1,
            line >= 1,
            begin == line_begin(s, line as int),
            begin < s.len(),
            end <= s.len(),
            end == stop_index(s, '\n', begin as int),
            first_match(s, pat@, begin as int, end as int) == first_match(
                s,
                pat@,
                p as int,
                end as int,
            ),
        decreases end - p,
    {
        if matches_at(&cs, &pat, p) {
            let mut out = content.substring_char(0, p).to_owned();
            out.append("](");
            out.append(new_link);
            out.append(")");
            out.append(content.substring_char(p + pat.len(), cs.len()));
            proof {
                reveal_strlit("](");
                reveal_strlit(")");
                assert(out@ =~= s.subrange(0, p as int) + link_pattern(new_link@) + s.subrange(
                    p + pat@.len(),
                    s.len() as int,
                ));
            }
            return Ok(Some(out));
        }
        p = p + 1;
    }
    Ok(None)
}

/// The directory of the document at `path`.
pub fn parent_dir(path: &str) -> (r: Result<String, MdrefError>)
    ensures
        match path_parent(path@) {
            Some(d) => r matches Ok(x) && x@ == d,
            None => r matches Err(e) && is_path_error(e, "No parent directory"@),
        },
{
    match parent_of(path) {
        Some(d) => Ok(d),
        None => Err(MdrefError::Path("No parent directory".to_owned())),
    }
}

/// The path that the link `link` of the moved document pointed at while the
/// document was at `old_path`: the link joined to the old directory.
pub fn outgoing_link_path(old_path: &str, link: &str) -> (r: Result<String, MdrefError>)
    ensures
        match path_parent(old_path@) {
            Some(d) => r matches Ok(x) && x@ == path_join(d, link@),
            None => r matches Err(e) && is_path_error(e, "No parent directory"@),
        },
{
    let dir = parent_dir(old_path)?;
    Ok(join(dir.as_str(), link))
}

/// The new target text of a link of the moved document, from the canonical
/// path it pointed at (`target`), the canonical old path of the document
/// (`old_file`) and its canonical new path (`new_file`).
///
/// A link to the document itself now names the new file name; any other
/// link becomes the relative path from the new directory to its target.
pub fn rewritten_outgoing_link(target: &str, old_file: &str, new_file: &str) -> (r: Result<
    String,
    MdrefError,
>)
    ensures
        match outgoing_link_text(target@, old_file@, new_file@) {
            Ok(t) => r matches Ok(x) && x@ == t,
            Err(m) => r matches Err(e) && is_path_error(e, m),
        },
{
    if same_text(target, old_file) {
        match file_name_of(new_file) {
            Some(n) => Ok(n),
            None => Err(MdrefError::Path("No file name".to_owned())),
        }
    } else {
        let dir = parent_dir(new_file)?;
        Ok(relative_path(dir.as_str(), target))
    }
}

/// Rewrites a reference to the moved file, recorded in a document whose
/// text is `content`, so that it leads from the document's canonical
/// directory `dir` to the file's canonical new path `new_file`.
pub fn update_reference(r: &Reference, content: &str, dir: &str, new_file: &str) -> (res: Result<
    Option<String>,
    MdrefError,
>)
    requires
        r.line >= 1,
    ensures
        is_rewrite_of(res, r.path@, content@, r.line as int, r.link_text@, relative_text(dir@, new_file@)),
{
    let link = relative_path(dir, new_file);
    replace_link_in_text(r.path.as_str(), content, r.line, r.link_text.as_str(), link.as_str())
}

/// Rewrites a link of the moved document, whose text is now `content`, so
/// that it still leads to `target`, the canonical path it pointed at; the
/// document's canonical old and new paths are `old_file` and `new_file`.
pub fn update_link(r: &Reference, content: &str, target: &str, old_file: &str, new_file: &str) -> (res:
    Result<Option<String>, MdrefError>)
    requires
        r.line >= 1,
    ensures
        match outgoing_link_text(target@, old_file@, new_file@) {
            Ok(t) => is_rewrite_of(res, r.path@, content@, r.line as int, r.link_text@, t),
            Err(m) => res matches Err(e) && is_path_error(e, m),
        },
{
    let link = rewritten_outgoing_link(target, old_file, new_file)?;
    replace_link_in_text(r.path.as_str(), content, r.line, r.link_text.as_str(), link.as_str())
}

/// Whether the first `](old)` on the line of the `k`-th link of `s`, where
/// `old` is that link's target text, is the link's own.
pub open spec fn is_first_on_its_line(path: Seq<char>, s: Seq<char>, k: int) -> bool {
    let r = links_in(path, s)[k];
    let begin = line_begin(s, r.line as int);
    first_match(s, link_pattern(r.link_text), begin, stop_index(s, '\n', begin)) == Some(
        tokens_from(s, 0)[k].1 - 2,
    )
}

/// Rewriting a link keeps it a link that now carries the new target: where
/// the recorded link is the first `](old)` of its line and the new target
/// text `new` is not empty and holds no `)` and no line break, the rewritten
/// text has, at the same place in the scan, a link at the same line and
/// column whose target text is `new`, and every link before it is as it was.
pub proof fn lemma_rewrite_retargets_link(path: Seq<char>, s: Seq<char>, k: int, new: Seq<char>)
    requires
        0 <= k < links_in(path, s).len(),
        is_first_on_its_line(path, s, k),
        new.len() > 0,
        forall|c: int| 0 <= c < new.len() ==> new[c] != ')' && new[c] != '\n',
    ensures
        ({
            let r = links_in(path, s)[k];
            rewritten_text(s, r.line as int, r.link_text, new) matches Some(t) && k < links_in(
                path,
                t,
            ).len() && links_in(path, t)[k] == (ReferenceView { link_text: new, ..r })
                && links_in(path, t).take(k) == links_in(path, s).take(k)
        }),
{
    let toks = tokens_from(s, 0);
    let (i, a, b) = toks[k];
    let r = links_in(path, s)[k];
    lemma_tokens_after(s, 0, k);
    lemma_token_bounds(s, i);
    crate::scan::lemma_stop_index(s, ']', i + 1);
    assert(r == token_reference(path, s, toks[k]));
    let old = r.link_text;
    let p = a - 2;
    assert(old == s.subrange(a, b));
    let t = s.subrange(0, p) + link_pattern(new) + s.subrange(p + link_pattern(old).len(), s.len() as int);
    assert(rewritten_text(s, r.line as int, old, new) == Some(t));
    let n = new.len() as int;
    assert(t.len() == p + n + 3 + (s.len() - b - 1));
    assert forall|c: int| 0 <= c < a implies t[c] == s[c] by {
        if c < p {
            assert(t[c] == s.subrange(0, p)[c]);
        }
    }
    assert forall|c: int| a <= c < a + n implies t[c] != ')' && t[c] != '\n' by {
        assert(t[c] == new[c - a]);
    }
    assert(t[a + n] == ')');
    lemma_stop_index_agrees(s, t, ']', i + 1);
    lemma_stop_index_exact(t, ')', a, a + n);
    assert(token_at(t, i) == Some((a, a + n)));
    lemma_scan_agrees_before(s, t, 0, k);
    lemma_token_bounds(t, i);
    assert(tokens_from(t, i) == seq![(i, a, a + n)] + tokens_from(t, a + n + 1));
    assert(tokens_from(t, 0)[k] == (i, a, a + n));
    lemma_position_prefix(s, t, i);
    assert(t.subrange(a, a + n) =~= new);
    assert(links_in(path, t)[k] == token_reference(path, t, (i, a, a + n)));
    assert forall|j: int| 0 <= j < k implies links_in(path, t)[j] == links_in(path, s)[j] by {
        assert(tokens_from(t, 0)[j] == toks.take(k)[j]);
        lemma_tokens_ordered(s, 0, j, k);
        lemma_tokens_after(s, 0, j);
        lemma_token_bounds(s, toks[j].0);
        lemma_position_prefix(s, t, toks[j].0);
        assert(t.subrange(toks[j].1, toks[j].2) =~= s.subrange(toks[j].1, toks[j].2));
    }
    assert(links_in(path, t).take(k) =~= links_in(path, s).take(k));
}

} // verus!
