//! Which links of a document refer to a given file.
//!
//! A link refers to the canonical file `target` when its target text has
//! the same file name as `target` (a check on the text alone, made first)
//! and the path it resolves to canonicalizes to `target`. Canonicalizing
//! reads the file system, so it is the caller's part: it hands each
//! candidate back together with what canonicalizing its resolved path gave.
use vstd::prelude::*;

use crate::paths::{file_name_of, is_markdown, is_markdown_path, opt_text, path_file_name};
use crate::reference::{Reference, ReferenceView};
use crate::scan::{links_in, scan_links};
use crate::text::same_text;

verus! {

/// Whether the target text `link` has the file name of `target`.
pub open spec fn names_target(link: Seq<char>, target: Seq<char>) -> bool {
    path_file_name(link) == path_file_name(target)
}

/// The links of a document that may refer to `target`: those whose target
/// text has `target`'s file name, in document order.
pub open spec fn candidate_links(path: Seq<char>, content: Seq<char>, target: Seq<char>) -> Seq<
    ReferenceView,
> {
    links_in(path, content).filter(|r: ReferenceView| names_target(r.link_text, target))
}

/// A candidate together with the canonical path that its link resolved to.
pub open spec fn resolution_view(p: (Reference, Option<String>)) -> (
    ReferenceView,
    Option<Seq<char>>,
) {
    (p.0@, opt_text(p.1))
}

/// The candidates whose link resolved to exactly `target`, in their order.
pub open spec fn selected(resolved: Seq<(ReferenceView, Option<Seq<char>>)>, target: Seq<char>) -> Seq<
    ReferenceView,
> {
    resolved.filter(|p: (ReferenceView, Option<Seq<char>>)| p.1 == Some(target)).map_values(
        |p: (ReferenceView, Option<Seq<char>>)| p.0,
    )
}

/// What listing the links of the document at `path` gives: every link of
/// `content` for a Markdown document, none for any other.
pub open spec fn document_links_view(path: Seq<char>, content: Seq<char>) -> Seq<ReferenceView> {
    if is_markdown_path(path) {
        links_in(path, content)
    } else {
        Seq::empty()
    }
}

/// A link of a document whose target text has the file name of the
/// canonical file `target`, and whose resolved path canonicalizes to
/// `target`, is among the references selected for that document, with the
/// document's path, the link's line and column, and its target text.
pub proof fn lemma_resolving_link_is_found(
    path: Seq<char>,
    content: Seq<char>,
    target: Seq<char>,
    resolved: Seq<(ReferenceView, Option<Seq<char>>)>,
    k: int,
)
    requires
        resolved.map_values(|p: (ReferenceView, Option<Seq<char>>)| p.0) == candidate_links(
            path,
            content,
            target,
        ),
        0 <= k < links_in(path, content).len(),
        names_target(links_in(path, content)[k].link_text, target),
        forall|j: int|
            0 <= j < resolved.len() && resolved[j].0 == links_in(path, content)[k] ==> resolved[j].1
                == Some(target),
    ensures
        selected(resolved, target).contains(links_in(path, content)[k]),
        links_in(path, content)[k].path == path,
{
    let links = links_in(path, content);
    let pred = |r: ReferenceView| names_target(r.link_text, target);
    links.lemma_filter_contains(pred, k);
    let cands = candidate_links(path, content, target);
    let j = choose|j: int| 0 <= j < cands.len() && cands[j] == links[k];
    assert(resolved.map_values(|p: (ReferenceView, Option<Seq<char>>)| p.0)[j] == resolved[j].0);
    let keep = |p: (ReferenceView, Option<Seq<char>>)| p.1 == Some(target);
    resolved.lemma_filter_contains(keep, j);
    let kept = resolved.filter(keep);
    let m = choose|m: int| 0 <= m < kept.len() && kept[m] == resolved[j];
    assert(selected(resolved, target)[m] == links[k]);
}

/// Every selected reference came with a resolution to exactly `target`: a
/// link whose path resolved to nothing, or to another file, is never
/// selected.
pub proof fn lemma_selected_resolve_to_target(
    resolved: Seq<(ReferenceView, Option<Seq<char>>)>,
    target: Seq<char>,
    m: int,
)
    requires
        0 <= m < selected(resolved, target).len(),
    ensures
        exists|j: int|
            0 <= j < resolved.len() && resolved[j].0 == selected(resolved, target)[m]
                && resolved[j].1 == Some(target),
{
    let keep = |p: (ReferenceView, Option<Seq<char>>)| p.1 == Some(target);
    let kept = resolved.filter(keep);
    resolved.lemma_filter_pred(keep, m);
    assert(kept.contains(kept[m]));
    resolved.lemma_filter_contains_rev(keep, kept[m]);
    let j = choose|j: int| 0 <= j < resolved.len() && resolved[j] == kept[m];
    assert(resolved[j].0 == selected(resolved, target)[m]);
}

/// Whether the target text `link` has the same file name as `target`.
pub fn link_names_target(link: &str, target: &str) -> (r: bool)
    ensures
        r == names_target(link@, target@),
{
    match (file_name_of(link), file_name_of(target)) {
        (Some(a), Some(b)) => a == b,
        (None, None) => true,
        _ => false,
    }
}

/// The links of `content`, the text of the document at `path`, that may
/// refer to the canonical file `target`, in document order.
pub fn reference_candidates(path: &str, content: &str, target: &str) -> (r: Vec<Reference>)
    ensures
        r@.map_values(|x: Reference| x@) == candidate_links(path@, content@, target@),
{
    let all = scan_links(path, content);
    let ghost all_view = all@.map_values(|x: Reference| x@);
    let ghost pred = |r: ReferenceView| names_target(r.link_text, target@);
    let mut out: Vec<Reference> = Vec::new();
    for x in it: all.into_iter()
        invariant
            it.seq() == all@,
            all_view == all@.map_values(|x: Reference| x@),
            all_view == links_in(path@, content@),
            pred == (|r: ReferenceView| names_target(r.link_text, target@)),
            out@.map_values(|x: Reference| x@) == all_view.take(it.index() as int).filter(pred),
    {
        let ghost k = it.index() as int;
        let keep = link_names_target(x.link_text.as_str(), target);
        proof {
            assert(all_view.take(k + 1).drop_last() =~= all_view.take(k));
            assert(all_view.take(k + 1).last() == x@);
            reveal(Seq::filter);
            assert(pred(x@) == keep);
        }
        let ghost before = out@;
        if keep {
            out.push(x);
            proof {
                assert(out@.map_values(|x: Reference| x@) =~= before.map_values(
                    |x: Reference| x@,
                ).push(x@));
                assert(all_view.take(k + 1).filter(pred) == all_view.take(k).filter(pred).push(x@));
            }
        } else {
            assert(all_view.take(k + 1).filter(pred) == all_view.take(k).filter(pred));
        }
    }
    proof {
        assert(all_view.take(all_view.len() as int) =~= all_view);
    }
    out
}

/// The candidates whose link resolved to exactly the canonical file
/// `target`, in the order given; each comes with what canonicalizing its
/// resolved path gave (nothing where it did not resolve or exist).
pub fn select_references(resolved: Vec<(Reference, Option<String>)>, target: &str) -> (r: Vec<
    Reference,
>)
    ensures
        r@.map_values(|x: Reference| x@) == selected(
            resolved@.map_values(|p: (Reference, Option<String>)| resolution_view(p)),
            target@,
        ),
{
    let ghost all = resolved@.map_values(|p: (Reference, Option<String>)| resolution_view(p));
    let ghost pred = |p: (ReferenceView, Option<Seq<char>>)| p.1 == Some(target@);
    let mut out: Vec<Reference> = Vec::new();
    for p in it: resolved.into_iter()
        invariant
            it.seq() == resolved@,
            all == resolved@.map_values(|p: (Reference, Option<String>)| resolution_view(p)),
            pred == (|p: (ReferenceView, Option<Seq<char>>)| p.1 == Some(target@)),
            out@.map_values(|x: Reference| x@) == all.take(it.index() as int).filter(
                pred,
            ).map_values(|p: (ReferenceView, Option<Seq<char>>)| p.0),
    {
        let ghost k = it.index() as int;
        let (reference, canonical) = p;
        let keep = match canonical {
            Some(c) => same_text(c.as_str(), target),
            None => false,
        };
        proof {
            assert(all.take(k + 1).drop_last() =~= all.take(k));
            assert(all.take(k + 1).last() == all[k]);
            reveal(Seq::filter);
        }
        let ghost before = out@;
        if keep {
            out.push(reference);
        }
        proof {
            let f = all.take(k).filter(pred);
            if keep {
                assert(f.push(all[k]).map_values(|p: (ReferenceView, Option<Seq<char>>)| p.0)
                    =~= f.map_values(|p: (ReferenceView, Option<Seq<char>>)| p.0).push(
                    all[k].0,
                ));
                assert(out@.map_values(|x: Reference| x@) =~= before.map_values(
                    |x: Reference| x@,
                ).push(all[k].0));
            }
        }
    }
    proof {
        assert(all.take(all.len() as int) =~= all);
    }
    out
}

/// The links of the document at `path`, whose text is `content`: every
/// link token for a Markdown document, none for any other path.
pub fn document_links(path: &str, content: &str) -> (r: Vec<Reference>)
    ensures
        r@.map_values(|x: Reference| x@) == document_links_view(path@, content@),
{
    if is_markdown(path) {
        scan_links(path, content)
    } else {
        let r: Vec<Reference> = Vec::new();
        proof {
            assert(r@.map_values(|x: Reference| x@) =~= Seq::<ReferenceView>::empty());
        }
        r
    }
}

} // verus!
