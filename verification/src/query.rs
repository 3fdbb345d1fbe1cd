//! The filtered-query machinery of the metadata store: score pruning,
//! tag containment, and multi-criteria descending sorts.
//!
//! Scores come from the full-text engine as plain `(id, score)` pairs,
//! the score a fixed-point integer; a document is kept when ten times
//! its score strictly exceeds the best score.

use vstd::prelude::*;
use vstd::multiset::Multiset;
use crate::{DocId, TagId};
use crate::document::{DocumentData, DocView, FilterOptions, SortOrder};
use crate::metadata_store::docs_view;

verus! {

broadcast use vstd::seq_lib::group_to_multiset_ensures;

/// The mathematical view of the filter options.
#[verifier::ext_equal]
pub ghost struct FilterView {
    pub sort: SortOrder,
    pub tags: Seq<TagId>,
    pub query: Option<Seq<char>>,
}

impl View for FilterOptions {
    type V = FilterView;

    open spec fn view(&self) -> FilterView {
        FilterView {
            sort: self.sort,
            tags: self.tags@,
            query: crate::document::view_opt_string(self.query),
        }
    }
}

/// Whether the filter carries a non-empty free-text query.
pub open spec fn query_active(f: FilterView) -> bool {
    match f.query {
        Some(q) => q.len() > 0,
        None => false,
    }
}

/// The score the engine reported for this id, scanning from the front.
pub open spec fn spec_find_score(scores: Seq<(DocId, u64)>, id: DocId) -> Option<u64>
    decreases scores.len(),
{
    if scores.len() == 0 {
        None
    } else if scores.first().0 == id {
        Some(scores.first().1)
    } else {
        spec_find_score(scores.drop_first(), id)
    }
}

/// The score of this id, zero when the engine reported none.
pub open spec fn spec_score(scores: Seq<(DocId, u64)>, id: DocId) -> u64 {
    match spec_find_score(scores, id) {
        Some(s) => s,
        None => 0,
    }
}

/// The best reported score, zero when none was.
pub open spec fn spec_max_score(scores: Seq<(DocId, u64)>) -> u64
    decreases scores.len(),
{
    if scores.len() == 0 {
        0
    } else {
        let rest = spec_max_score(scores.drop_last());
        if scores.last().1 > rest {
            scores.last().1
        } else {
            rest
        }
    }
}

/// Whether a record survives the score pruning: the engine scored it,
/// and ten times its score strictly exceeds the best score.
pub open spec fn score_keep(scores: Seq<(DocId, u64)>, max: u64, d: DocView) -> bool {
    &&& spec_find_score(scores, d.id) is Some
    &&& 10 * (spec_score(scores, d.id) as int) > max as int
}

/// The records surviving the score pruning, in order.
pub open spec fn keep_by_score(docs: Seq<DocView>, scores: Seq<(DocId, u64)>, max: u64) -> Seq<
    DocView,
>
    decreases docs.len(),
{
    if docs.len() == 0 {
        docs
    } else {
        let rest = keep_by_score(docs.drop_last(), scores, max);
        if score_keep(scores, max, docs.last()) {
            rest.push(docs.last())
        } else {
            rest
        }
    }
}

/// Whether a record carries all the wanted tags.
pub open spec fn tags_has_all(have: Seq<TagId>, want: Seq<TagId>) -> bool {
    forall|i: int| 0 <= i < want.len() ==> have.contains(#[trigger] want[i])
}

/// The records carrying all the wanted tags, in order.
pub open spec fn keep_by_tags(docs: Seq<DocView>, want: Seq<TagId>) -> Seq<DocView>
    decreases docs.len(),
{
    if docs.len() == 0 {
        docs
    } else {
        let rest = keep_by_tags(docs.drop_last(), want);
        if tags_has_all(docs.last().tags, want) {
            rest.push(docs.last())
        } else {
            rest
        }
    }
}

/// Which key a sort orders by.
#[derive(Clone, Copy)]
pub enum SortSel {
    /// Descending by import instant.
    Imported,
    /// Descending by inferred document date, records without one last.
    Inferred,
    /// Descending by search score.
    Score,
}

/// The sort key of a record, as an unbounded integer; a missing
/// inferred date sorts below every real instant.
pub open spec fn spec_key(sel: SortSel, scores: Seq<(DocId, u64)>, d: DocView) -> int {
    match sel {
        SortSel::Imported => d.imported_date as int,
        SortSel::Inferred => match d.extracted.doc_date {
            Some(x) => x as int,
            None => i64::MIN as int - 1,
        },
        SortSel::Score => spec_score(scores, d.id) as int,
    }
}

/// Non-increasing order of the sort key.
pub open spec fn sorted_by(sel: SortSel, scores: Seq<(DocId, u64)>, s: Seq<DocView>) -> bool {
    forall|a: int, b: int|
        0 <= a <= b < s.len() ==> spec_key(sel, scores, #[trigger] s[a]) >= spec_key(
            sel,
            scores,
            #[trigger] s[b],
        )
}

/// The sort key the filter options call for.
pub open spec fn effective_sel(f: FilterView) -> SortSel {
    match f.sort {
        SortOrder::ImportedDate => SortSel::Imported,
        SortOrder::InferredDate => SortSel::Inferred,
        SortOrder::NoOrder => if query_active(f) {
            SortSel::Score
        } else {
            SortSel::Imported
        },
    }
}

/// The records a filtered query keeps, before ordering and windowing:
/// score pruning when a query is active, then tag containment when tags
/// were given.
pub open spec fn spec_kept(docs: Seq<DocView>, f: FilterView, scores: Seq<(DocId, u64)>) -> Seq<
    DocView,
> {
    let s1 = if query_active(f) {
        keep_by_score(docs, scores, spec_max_score(scores))
    } else {
        docs
    };
    if f.tags.len() > 0 {
        keep_by_tags(s1, f.tags)
    } else {
        s1
    }
}

/// The engine's score for this id, zero when it reported none.
pub fn find_score(scores: &Vec<(DocId, u64)>, id: DocId) -> (r: Option<u64>)
    ensures
        r == spec_find_score(scores@, id),
{
    let ghost m = scores@;
    let mut i: usize = 0;
    assert(m.subrange(0, m.len() as int) =~= m);
    while i < scores.len()
        invariant
            0 <= i <= m.len(),
            m == scores@,
            spec_find_score(m, id) == spec_find_score(m.subrange(i as int, m.len() as int), id),
        decreases m.len() - i,
    {
        let ghost rest = m.subrange(i as int, m.len() as int);
        let ghost rest1 = m.subrange(i + 1 as int, m.len() as int);
        proof {
            assert(rest.first() == m[i as int]);
            assert(rest.drop_first() =~= rest1);
        }
        if scores[i].0 == id {
            return Some(scores[i].1);
        }
        i = i + 1;
    }
    assert(m.subrange(m.len() as int, m.len() as int) =~= Seq::<(DocId, u64)>::empty());
    None
}

/// The best reported score.
pub fn max_score(scores: &Vec<(DocId, u64)>) -> (r: u64)
    ensures
        r == spec_max_score(scores@),
{
    let mut r: u64 = 0;
    let mut i: usize = 0;
    while i < scores.len()
        invariant
            0 <= i <= scores@.len(),
            r == spec_max_score(scores@.subrange(0, i as int)),
        decreases scores@.len() - i,
    {
        let ghost pre = scores@.subrange(0, i as int);
        let ghost pre1 = scores@.subrange(0, i + 1 as int);
        proof {
            assert(pre1.drop_last() =~= pre);
            assert(pre1.last() == scores@[i as int]);
        }
        if scores[i].1 > r {
            r = scores[i].1;
        }
        i = i + 1;
    }
    assert(scores@.subrange(0, scores@.len() as int) =~= scores@);
    r
}

/// Whether a record carries all the wanted tags.
pub fn contains_all_tags(have: &Vec<TagId>, want: &Vec<TagId>) -> (r: bool)
    ensures
        r == tags_has_all(have@, want@),
{
    let mut i: usize = 0;
    while i < want.len()
        invariant
            0 <= i <= want@.len(),
            forall|j: int| 0 <= j < i ==> have@.contains(#[trigger] want@[j]),
        decreases want@.len() - i,
    {
        let t = want[i];
        let mut found = false;
        let mut k: usize = 0;
        while k < have.len()
            invariant
                0 <= k <= have@.len(),
                found ==> have@.contains(t),
                !found ==> forall|l: int| 0 <= l < k ==> have@[l] != t,
            decreases have@.len() - k,
        {
            if have[k] == t {
                found = true;
                assert(have@.contains(t));
            }
            k = k + 1;
        }
        if !found {
            assert(!have@.contains(t)) by {
                if have@.contains(t) {
                    let l = choose|l: int| 0 <= l < have@.len() && have@[l] == t;
                }
            }
            return false;
        }
        i = i + 1;
    }
    true
}

/// Keeps the records the score pruning keeps, in order.
pub fn filter_by_score(docs: Vec<DocumentData>, scores: &Vec<(DocId, u64)>, max: u64) -> (r: Vec<
    DocumentData,
>)
    ensures
        docs_view(r) == keep_by_score(docs_view(docs), scores@, max),
{
    let ghost m = docs_view(docs);
    let mut out: Vec<DocumentData> = Vec::new();
    let mut i: usize = 0;
    let mut docs = docs;
    assert(docs_view(out) =~= keep_by_score(m.subrange(0, 0), scores@, max));
    while i < docs.len()
        invariant
            0 <= i <= m.len(),
            m == docs_view(docs),
            m.len() == docs@.len(),
            docs_view(out) == keep_by_score(m.subrange(0, i as int), scores@, max),
        decreases m.len() - i,
    {
        let ghost pre = m.subrange(0, i as int);
        let ghost pre1 = m.subrange(0, i + 1 as int);
        proof {
            assert(pre1.drop_last() =~= pre);
            assert(pre1.last() == m[i as int]);
        }
        let keep = match find_score(scores, docs[i].id) {
            Some(s) => {
                let ghost sv = s;
                if s <= u64::MAX / 10 {
                    10 * s > max
                } else {
                    proof {
                        assert(10 * (sv as int) > u64::MAX as int >= max as int) by (nonlinear_arith)
                            requires
                                sv as int > u64::MAX as int / 10,
                                max <= u64::MAX,
                        ;
                    }
                    true
                }
            },
            None => false,
        };
        if keep {
            let ghost prev = docs_view(out);
            out.push(docs[i].duplicate());
            proof {
                assert(docs_view(out) =~= prev.push(m[i as int]));
            }
        }
        i = i + 1;
    }
    assert(m.subrange(0, m.len() as int) =~= m);
    out
}

/// Keeps the records carrying all the wanted tags, in order.
pub fn filter_by_tags(docs: Vec<DocumentData>, want: &Vec<TagId>) -> (r: Vec<DocumentData>)
    ensures
        docs_view(r) == keep_by_tags(docs_view(docs), want@),
{
    let ghost m = docs_view(docs);
    let mut out: Vec<DocumentData> = Vec::new();
    let mut i: usize = 0;
    let docs = docs;
    assert(docs_view(out) =~= keep_by_tags(m.subrange(0, 0), want@));
    while i < docs.len()
        invariant
            0 <= i <= m.len(),
            m == docs_view(docs),
            m.len() == docs@.len(),
            docs_view(out) == keep_by_tags(m.subrange(0, i as int), want@),
        decreases m.len() - i,
    {
        let ghost pre = m.subrange(0, i as int);
        let ghost pre1 = m.subrange(0, i + 1 as int);
        proof {
            assert(pre1.drop_last() =~= pre);
            assert(pre1.last() == m[i as int]);
        }
        if contains_all_tags(&docs[i].tags, want) {
            let ghost prev = docs_view(out);
            out.push(docs[i].duplicate());
            proof {
                assert(docs_view(out) =~= prev.push(m[i as int]));
            }
        }
        i = i + 1;
    }
    assert(m.subrange(0, m.len() as int) =~= m);
    out
}

/// Whether `a` sorts at or before `b` under the chosen key.
fn key_ge(sel: SortSel, scores: &Vec<(DocId, u64)>, a: &DocumentData, b: &DocumentData) -> (r:
    bool)
    ensures
        r <==> spec_key(sel, scores@, a@) >= spec_key(sel, scores@, b@),
{
    match sel {
        SortSel::Imported => a.imported_date >= b.imported_date,
        SortSel::Inferred => match (&a.extracted.doc_date, &b.extracted.doc_date) {
            (Some(x), Some(y)) => *x >= *y,
            (Some(_), None) => true,
            (None, Some(_)) => false,
            (None, None) => true,
        },
        SortSel::Score => {
            let sa = match find_score(scores, a.id) {
                Some(s) => s,
                None => 0,
            };
            let sb = match find_score(scores, b.id) {
                Some(s) => s,
                None => 0,
            };
            sa >= sb
        },
    }
}

/// Sorts records by the chosen key, in non-increasing order; the result
/// is a permutation of the input.
pub fn sort_docs(docs: Vec<DocumentData>, sel: SortSel, scores: &Vec<(DocId, u64)>) -> (r: Vec<
    DocumentData,
>)
    ensures
        docs_view(r).to_multiset() == docs_view(docs).to_multiset(),
        sorted_by(sel, scores@, docs_view(r)),
{
    let ghost orig = docs_view(docs);
    let mut rest = docs;
    let mut out: Vec<DocumentData> = Vec::new();
    proof {
        assert(docs_view(out).to_multiset().add(docs_view(rest).to_multiset()) =~= orig
            .to_multiset());
    }
    while rest.len() > 0
        invariant
            docs_view(out).to_multiset().add(docs_view(rest).to_multiset()) == orig.to_multiset(),
            sorted_by(sel, scores@, docs_view(out)),
            forall|a: int, b: int|
                0 <= a < docs_view(out).len() && 0 <= b < docs_view(rest).len() ==> spec_key(
                    sel,
                    scores@,
                    #[trigger] docs_view(out)[a],
                ) >= spec_key(sel, scores@, #[trigger] docs_view(rest)[b]),
        decreases rest@.len(),
    {
        let ghost rv = docs_view(rest);
        let mut j: usize = 0;
        let mut k: usize = 1;
        while k < rest.len()
            invariant
                rv == docs_view(rest),
                rv.len() == rest@.len(),
                rest@.len() > 0,
                0 <= j < k <= rv.len() || (k <= rv.len() && j < rv.len()),
                j < rv.len(),
                k <= rv.len(),
                forall|l: int|
                    0 <= l < k ==> spec_key(sel, scores@, rv[j as int]) >= spec_key(
                        sel,
                        scores@,
                        #[trigger] rv[l],
                    ),
            decreases rv.len() - k,
        {
            if !key_ge(sel, scores, &rest[j], &rest[k]) {
                j = k;
            }
            k = k + 1;
        }
        let ghost out_prev = docs_view(out);
        let d = rest.remove(j);
        out.push(d);
        proof {
            assert(d@ == rv[j as int]);
            assert(docs_view(rest) =~= rv.remove(j as int));
            assert(docs_view(out) =~= out_prev.push(rv[j as int]));
            assert(rv.contains(rv[j as int]));
            assert(rv.to_multiset().count(rv[j as int]) > 0);
            assert(docs_view(out).to_multiset() =~= out_prev.to_multiset().insert(rv[j as int]));
            assert(docs_view(rest).to_multiset() =~= rv.to_multiset().remove(rv[j as int]));
            assert(docs_view(out).to_multiset().add(docs_view(rest).to_multiset()) =~= orig
                .to_multiset());
            assert forall|a: int, b: int|
                0 <= a < docs_view(out).len() && 0 <= b < docs_view(rest).len() implies spec_key(
                sel,
                scores@,
                #[trigger] docs_view(out)[a],
            ) >= spec_key(sel, scores@, #[trigger] docs_view(rest)[b]) by {
                let nrest = docs_view(rest);
                if b < j {
                    assert(nrest[b] == rv[b]);
                } else {
                    assert(nrest[b] == rv[b + 1]);
                }
                if a < docs_view(out).len() - 1 {
                    assert(docs_view(out)[a] == out_prev[a]);
                } else {
                    assert(docs_view(out)[a] == rv[j as int]);
                }
            }
            assert forall|a: int, b: int|
                0 <= a <= b < docs_view(out).len() implies spec_key(
                sel,
                scores@,
                #[trigger] docs_view(out)[a],
            ) >= spec_key(sel, scores@, #[trigger] docs_view(out)[b]) by {
                if b < docs_view(out).len() - 1 {
                    assert(docs_view(out)[a] == out_prev[a]);
                    assert(docs_view(out)[b] == out_prev[b]);
                } else if a < b {
                    assert(docs_view(out)[a] == out_prev[a]);
                    assert(docs_view(out)[b] == rv[j as int]);
                }
            }
        }
    }
    proof {
        assert(docs_view(rest) =~= Seq::<DocView>::empty());
        assert(docs_view(rest).to_multiset() =~= Multiset::<DocView>::empty());
        assert(docs_view(out).to_multiset() =~= orig.to_multiset());
    }
    out
}

/// Every record the score pruning keeps passes the score test and comes
/// from the pruned sequence.
pub proof fn lemma_keep_score_pred(docs: Seq<DocView>, scores: Seq<(DocId, u64)>, max: u64)
    ensures
        forall|i: int|
            0 <= i < keep_by_score(docs, scores, max).len() ==> score_keep(
                scores,
                max,
                #[trigger] keep_by_score(docs, scores, max)[i],
            ),
    decreases docs.len(),
{
    if docs.len() > 0 {
        lemma_keep_score_pred(docs.drop_last(), scores, max);
        let k = keep_by_score(docs, scores, max);
        let kd = keep_by_score(docs.drop_last(), scores, max);
        assert forall|i: int| 0 <= i < k.len() implies score_keep(scores, max, k[i]) by {
            if score_keep(scores, max, docs.last()) {
                if i < k.len() - 1 {
                    assert(k[i] == kd[i]);
                } else {
                    assert(k[i] == docs.last());
                }
            } else {
                assert(k[i] == kd[i]);
            }
        }
    }
}

/// Every record the tag filter keeps carries all the wanted tags.
pub proof fn lemma_keep_tags_pred(docs: Seq<DocView>, want: Seq<TagId>)
    ensures
        forall|i: int|
            0 <= i < keep_by_tags(docs, want).len() ==> tags_has_all(
                (#[trigger] keep_by_tags(docs, want)[i]).tags,
                want,
            ),
    decreases docs.len(),
{
    if docs.len() > 0 {
        lemma_keep_tags_pred(docs.drop_last(), want);
        let k = keep_by_tags(docs, want);
        let kd = keep_by_tags(docs.drop_last(), want);
        assert forall|i: int| 0 <= i < k.len() implies tags_has_all(k[i].tags, want) by {
            if tags_has_all(docs.last().tags, want) {
                if i < k.len() - 1 {
                    assert(k[i] == kd[i]);
                } else {
                    assert(k[i] == docs.last());
                }
            } else {
                assert(k[i] == kd[i]);
            }
        }
    }
}

/// What a filtered, ordered, windowed query returns: `rv` is the
/// `[offset, offset+count)` window, clamped to the end, of some
/// ordering of exactly the kept records, non-increasing in the
/// effective sort key; its members all pass the active filters.
pub open spec fn filtered_result_ok(
    docs: Seq<DocView>,
    offset: int,
    count: int,
    f: FilterView,
    scores: Seq<(DocId, u64)>,
    rv: Seq<DocView>,
) -> bool {
    let kept = spec_kept(docs, f, scores);
    let lo = vstd::math::min(offset, kept.len() as int);
    let hi = vstd::math::min(offset + count, kept.len() as int);
    &&& rv.len() == hi - lo
    &&& sorted_by(effective_sel(f), scores, rv)
    &&& exists|s: Seq<DocView>|
        (#[trigger] s.to_multiset()) == kept.to_multiset() && sorted_by(effective_sel(f), scores, s)
            && rv == s.subrange(lo, hi)
    &&& (offset == 0 && kept.len() <= count) ==> rv.to_multiset() == kept.to_multiset()
    &&& query_active(f) ==> forall|i: int|
        0 <= i < rv.len() ==> score_keep(scores, spec_max_score(scores), #[trigger] rv[i])
    &&& f.tags.len() > 0 ==> forall|i: int|
        0 <= i < rv.len() ==> tags_has_all((#[trigger] rv[i]).tags, f.tags)
}

/// A record the tag filter keeps comes from its input.
pub proof fn lemma_keep_tags_sub(docs: Seq<DocView>, want: Seq<TagId>, i: int)
    requires
        0 <= i < keep_by_tags(docs, want).len(),
    ensures
        docs.contains(keep_by_tags(docs, want)[i]),
    decreases docs.len(),
{
    if docs.len() > 0 {
        let d = docs.drop_last();
        let k = keep_by_tags(docs, want);
        let kd = keep_by_tags(d, want);
        if tags_has_all(docs.last().tags, want) && i == k.len() - 1 {
            assert(k[i] == docs.last());
            assert(docs[docs.len() - 1] == docs.last());
        } else {
            assert(k[i] == kd[i]);
            lemma_keep_tags_sub(d, want, i);
            let j = choose|j: int| 0 <= j < d.len() && d[j] == kd[i];
            assert(docs[j] == kd[i]);
        }
    }
}

} // verus!
