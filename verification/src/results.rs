use vstd::prelude::*;
use vstd::relations::sorted_by;
use vstd::seq_lib::group_to_multiset_ensures;
use vstd::seq_lib::lemma_multiset_commutative;
use vstd::multiset::Multiset;

verus! {

broadcast use vstd::multiset::group_multiset_axioms;

/// One ranked hit of a search. The engine's non-negative score is carried
/// in an order-preserving integer encoding; `peer` identifies the
/// participant that produced the hit (0 is the local handle), `segment`
/// and `doc` are the engine's internal address of the document, and
/// `payload` is the stored document rendered as JSON text.
#[derive(Debug)]
pub struct ScoredDoc {
    pub score: u32,
    pub peer: u64,
    pub segment: u32,
    pub doc: u32,
    pub payload: String,
}

/// One facet aggregation entry: a facet path and how many hits carry it.
#[derive(Debug)]
pub struct FacetCount {
    pub field: String,
    pub count: u64,
}

/// The result of one search: the total hit count, the ranked document
/// hits, and the facet aggregations.
#[derive(Debug)]
pub struct SearchResults {
    pub hits: u64,
    pub docs: Vec<ScoredDoc>,
    pub facets: Vec<FacetCount>,
}

/// The rank key of a hit: hits are ordered by score descending, with ties
/// broken by participant id, then segment, then document id, ascending.
pub open spec fn doc_key(d: ScoredDoc) -> (int, int, int, int) {
    (d.score as int, d.peer as int, d.segment as int, d.doc as int)
}

/// The rank order itself: `a` comes no later than `b`.
pub open spec fn doc_le(a: ScoredDoc, b: ScoredDoc) -> bool {
    ||| a.score > b.score
    ||| (a.score == b.score && a.peer < b.peer)
    ||| (a.score == b.score && a.peer == b.peer && a.segment < b.segment)
    ||| (a.score == b.score && a.peer == b.peer && a.segment == b.segment && a.doc <= b.doc)
}

pub open spec fn doc_order() -> spec_fn(ScoredDoc, ScoredDoc) -> bool {
    |a: ScoredDoc, b: ScoredDoc| doc_le(a, b)
}

/// No two hits share a rank key, so the ranked order is unambiguous.
pub open spec fn distinct_keys(s: Seq<ScoredDoc>) -> bool {
    forall|i: int, j: int|
        0 <= i < j < s.len() ==> doc_key(s[i]) != doc_key(s[j])
}

/// The rank order is total and transitive, and mutually related hits
/// share a key.
pub proof fn lemma_doc_le_properties()
    ensures
        forall|a: ScoredDoc, b: ScoredDoc| #[trigger] doc_le(a, b) || #[trigger] doc_le(b, a),
        forall|a: ScoredDoc, b: ScoredDoc|
            #[trigger] doc_le(a, b) && #[trigger] doc_le(b, a) ==> doc_key(a) == doc_key(b),
        forall|a: ScoredDoc, b: ScoredDoc, c: ScoredDoc|
            #[trigger] doc_le(a, b) && #[trigger] doc_le(b, c) ==> doc_le(a, c),
{
}

/// Comparison of two hits by their rank key.
pub fn docs_in_order(a: &ScoredDoc, b: &ScoredDoc) -> (r: bool)
    ensures
        r == doc_le(*a, *b),
{
    if a.score > b.score {
        true
    } else if a.score == b.score && a.peer < b.peer {
        true
    } else if a.score == b.score && a.peer == b.peer && a.segment < b.segment {
        true
    } else {
        a.score == b.score && a.peer == b.peer && a.segment == b.segment && a.doc <= b.doc
    }
}

/// Sorts hits into rank order: score descending, ties by participant,
/// segment and document id ascending. Keeps exactly the same hits.
pub fn sort_docs(docs: &mut Vec<ScoredDoc>)
    ensures
        final(docs)@.to_multiset() == old(docs)@.to_multiset(),
        final(docs)@.len() == old(docs)@.len(),
        sorted_by(final(docs)@, doc_order()),
{
    let ghost orig = docs@;
    if docs.len() <= 1 {
        return;
    }
    let mut i: usize = 1;
    while i < docs.len()
        invariant
            1 <= i <= docs@.len(),
            docs@.len() == orig.len(),
            docs@.to_multiset() == orig.to_multiset(),
            sorted_by(docs@.take(i as int), doc_order()),
        decreases docs@.len() - i,
    {
        let mut pos: usize = 0;
        while pos < i && docs_in_order(&docs[pos], &docs[i])
            invariant
                0 <= pos <= i < docs@.len(),
                forall|k: int| 0 <= k < pos ==> doc_le(docs@[k], #[trigger] docs@[i as int]),
            decreases i - pos,
        {
            pos += 1;
        }
        if pos < i {
            let ghost before = docs@;
            let moved = docs.remove(i);
            docs.insert(pos, moved);
            proof {
                lemma_doc_le_properties();
                lemma_insertion_step(before, docs@, i as int, pos as int);
            }
        } else {
            proof {
                assert(docs@.take(i as int + 1) =~= docs@.take(i as int).push(
                    docs@[i as int],
                ));
            }
        }
        i += 1;
    }
    proof {
        assert(docs@.take(docs@.len() as int) =~= docs@);
    }
}

/// A total capped at what a `u64` counter can carry.
pub open spec fn cap64(x: int) -> int {
    if x > u64::MAX as int {
        u64::MAX as int
    } else {
        x
    }
}

/// The count a facet table assigns to a field, zero when absent.
pub open spec fn map_count(m: Map<Seq<char>, int>, f: Seq<char>) -> int {
    if m.dom().contains(f) {
        m[f]
    } else {
        0
    }
}

/// Raises the count of one field by `c`, capping the total.
pub open spec fn bump(m: Map<Seq<char>, int>, f: Seq<char>, c: int) -> Map<Seq<char>, int> {
    m.insert(f, cap64(map_count(m, f) + c))
}

/// The mathematical content of a facet list: each field mapped to the
/// total of its counts.
pub open spec fn facet_map(s: Seq<FacetCount>) -> Map<Seq<char>, int>
    decreases s.len(),
{
    if s.len() == 0 {
        Map::empty()
    } else {
        bump(facet_map(s.drop_last()), s.last().field@, s.last().count as int)
    }
}

/// No two facet entries name the same field.
pub open spec fn distinct_fields(s: Seq<FacetCount>) -> bool {
    forall|i: int, j: int|
        0 <= i < j < s.len() ==> s[i].field@ != s[j].field@
}

/// The mathematical content of a `SearchResults`: the hit total, the
/// multiset of ranked hits, and the facet totals. Merging is summation
/// of these views.
#[verifier::ext_equal]
pub struct ResultsView {
    pub hits: int,
    pub docs: Multiset<ScoredDoc>,
    pub facets: Map<Seq<char>, int>,
}

impl View for SearchResults {
    type V = ResultsView;

    open spec fn view(&self) -> ResultsView {
        ResultsView {
            hits: self.hits as int,
            docs: self.docs@.to_multiset(),
            facets: facet_map(self.facets@),
        }
    }
}

impl SearchResults {
    /// Hits in rank order and one entry per facet field.
    pub open spec fn wf(&self) -> bool {
        &&& sorted_by(self.docs@, doc_order())
        &&& distinct_fields(self.facets@)
    }

    /// The identity of merging: no hits, no documents, no facets.
    pub fn empty() -> (r: SearchResults)
        ensures
            r@ == empty_view(),
            r.wf(),
            r.hits == 0,
            r.docs@.len() == 0,
            r.facets@.len() == 0,
    {
        let r = SearchResults { hits: 0, docs: Vec::new(), facets: Vec::new() };
        proof {
            broadcast use group_to_multiset_ensures;

            assert(r.docs@.to_multiset() =~= Multiset::<ScoredDoc>::empty());
            assert(r@ =~= empty_view());
        }
        r
    }
}

/// Pointwise sum of two facet tables.
pub open spec fn map_sum(m1: Map<Seq<char>, int>, m2: Map<Seq<char>, int>) -> Map<
    Seq<char>,
    int,
> {
    Map::new(
        |k: Seq<char>| m1.dom().contains(k) || m2.dom().contains(k),
        |k: Seq<char>| map_count(m1, k) + map_count(m2, k),
    )
}

/// The exact sum of two result views: hit totals add, hit multisets
/// unite, facet totals add per field.
pub open spec fn sum_views(x: ResultsView, y: ResultsView) -> ResultsView {
    ResultsView { hits: x.hits + y.hits, docs: x.docs.add(y.docs), facets: map_sum(x.facets, y.facets) }
}

pub open spec fn empty_view() -> ResultsView {
    ResultsView { hits: 0, docs: Multiset::empty(), facets: Map::empty() }
}

pub open spec fn clamp_map(m: Map<Seq<char>, int>) -> Map<Seq<char>, int> {
    Map::new(|k: Seq<char>| m.dom().contains(k), |k: Seq<char>| cap64(m[k]))
}

/// What the `u64` counters of an executable result can carry of an exact
/// sum: totals are capped, the hits themselves are kept.
pub open spec fn clamp_view(x: ResultsView) -> ResultsView {
    ResultsView { hits: cap64(x.hits), docs: x.docs, facets: clamp_map(x.facets) }
}

/// A view with non-negative totals; the view of every executable result
/// is one, and sums keep it.
pub open spec fn nonneg_view(x: ResultsView) -> bool {
    &&& x.hits >= 0
    &&& forall|k: Seq<char>| x.facets.dom().contains(k) ==> #[trigger] x.facets[k] >= 0
}

/// Facet totals lie between zero and the counter cap.
pub proof fn lemma_facet_map_bounds(s: Seq<FacetCount>)
    ensures
        forall|k: Seq<char>|
            facet_map(s).dom().contains(k) ==> 0 <= #[trigger] facet_map(s)[k]
                <= u64::MAX as int,
    decreases s.len(),
{
    if s.len() > 0 {
        lemma_facet_map_bounds(s.drop_last());
        assert forall|k: Seq<char>| facet_map(s).dom().contains(k) implies 0
            <= #[trigger] facet_map(s)[k] <= u64::MAX as int by {
            if k == s.last().field@ {
                if facet_map(s.drop_last()).dom().contains(k) {
                    assert(facet_map(s.drop_last())[k] >= 0);
                }
            } else {
                assert(facet_map(s)[k] == facet_map(s.drop_last())[k]);
            }
        }
    }
}

/// A field is in the facet table exactly when some entry names it.
pub proof fn lemma_facet_map_dom(s: Seq<FacetCount>)
    ensures
        forall|k: Seq<char>|
            facet_map(s).dom().contains(k) <==> (exists|i: int|
                0 <= i < s.len() && #[trigger] s[i].field@ == k),
    decreases s.len(),
{
    if s.len() > 0 {
        lemma_facet_map_dom(s.drop_last());
        assert forall|k: Seq<char>| facet_map(s).dom().contains(k) implies (exists|i: int|
            0 <= i < s.len() && #[trigger] s[i].field@ == k) by {
            if k == s.last().field@ {
                assert(s[s.len() - 1].field@ == k);
            } else {
                assert(facet_map(s.drop_last()).dom().contains(k));
                let i = choose|i: int| 0 <= i < s.drop_last().len() && #[trigger] s.drop_last()[i].field@ == k;
                assert(s[i].field@ == k);
            }
        }
        assert forall|k: Seq<char>| (exists|i: int|
            0 <= i < s.len() && #[trigger] s[i].field@ == k) implies facet_map(
            s,
        ).dom().contains(k) by {
            let i = choose|i: int| 0 <= i < s.len() && #[trigger] s[i].field@ == k;
            if i < s.len() - 1 {
                assert(s.drop_last()[i].field@ == k);
                assert(facet_map(s.drop_last()).dom().contains(k));
            } else {
                assert(k == s.last().field@);
            }
        }
    }
}

/// When no later entry names the same field, the table's count for an
/// entry's field is that entry's own count.
pub proof fn lemma_facet_map_at(s: Seq<FacetCount>, idx: int)
    requires
        0 <= idx < s.len(),
        distinct_fields(s),
    ensures
        facet_map(s).dom().contains(s[idx].field@),
        facet_map(s)[s[idx].field@] == s[idx].count as int,
    decreases s.len(),
{
    lemma_facet_map_dom(s.drop_last());
    if idx == s.len() - 1 {
        assert(forall|i: int|
            0 <= i < s.drop_last().len() ==> #[trigger] s.drop_last()[i].field@ != s[idx].field@);
        assert(!facet_map(s.drop_last()).dom().contains(s[idx].field@)) by {
            if facet_map(s.drop_last()).dom().contains(s[idx].field@) {
                let i = choose|i: int|
                    0 <= i < s.drop_last().len() && #[trigger] s.drop_last()[i].field@
                        == s[idx].field@;
            }
        }
        assert(map_count(facet_map(s.drop_last()), s[idx].field@) == 0);
    } else {
        assert(s.drop_last()[idx] == s[idx]);
        lemma_facet_map_at(s.drop_last(), idx);
        assert(s.last().field@ != s[idx].field@);
    }
}

/// Replacing one entry by another with the same field resets that
/// field's total to the new entry's count.
pub proof fn lemma_facet_map_update(s: Seq<FacetCount>, idx: int, e: FacetCount)
    requires
        0 <= idx < s.len(),
        distinct_fields(s),
        e.field@ == s[idx].field@,
    ensures
        facet_map(s.update(idx, e)) == facet_map(s).insert(e.field@, e.count as int),
    decreases s.len(),
{
    let t = s.update(idx, e);
    lemma_facet_map_dom(s.drop_last());
    if idx == s.len() - 1 {
        assert(t.drop_last() =~= s.drop_last());
        assert(t.last() == e);
        assert(forall|i: int|
            0 <= i < s.drop_last().len() ==> #[trigger] s.drop_last()[i].field@ != e.field@);
        assert(!facet_map(s.drop_last()).dom().contains(e.field@)) by {
            if facet_map(s.drop_last()).dom().contains(e.field@) {
                let i = choose|i: int|
                    0 <= i < s.drop_last().len() && #[trigger] s.drop_last()[i].field@ == e.field@;
            }
        }
        assert(map_count(facet_map(s.drop_last()), e.field@) == 0);
        assert(facet_map(t) =~= facet_map(s).insert(e.field@, e.count as int));
    } else {
        assert(t.drop_last() =~= s.drop_last().update(idx, e));
        assert(t.last() == s.last());
        assert(s.drop_last()[idx] == s[idx]);
        lemma_facet_map_update(s.drop_last(), idx, e);
        assert(s.last().field@ != e.field@);
        lemma_facet_map_bounds(s.drop_last());
        assert(facet_map(t) =~= facet_map(s).insert(e.field@, e.count as int));
    }
}

/// `u64` addition capped at the maximum instead of overflowing.
pub fn sat_add_u64(a: u64, b: u64) -> (r: u64)
    ensures
        r as int == cap64(a as int + b as int),
{
    if u64::MAX - a < b {
        u64::MAX
    } else {
        a + b
    }
}

/// Folding one more count into either side of a facet sum gives the same
/// capped totals.
proof fn lemma_bump_across_sum(x: Map<Seq<char>, int>, y: Map<Seq<char>, int>, f: Seq<char>, c: int)
    requires
        c >= 0,
        forall|k: Seq<char>| x.dom().contains(k) ==> #[trigger] x[k] >= 0,
        forall|k: Seq<char>| y.dom().contains(k) ==> #[trigger] y[k] >= 0,
    ensures
        clamp_map(map_sum(bump(x, f, c), y)) == clamp_map(map_sum(x, bump(y, f, c))),
{
    let lhs = clamp_map(map_sum(bump(x, f, c), y));
    let rhs = clamp_map(map_sum(x, bump(y, f, c)));
    assert forall|k: Seq<char>| lhs.dom().contains(k) implies lhs[k] == rhs[k] by {
        if k == f {
            assert(map_count(x, f) >= 0);
            assert(map_count(y, f) >= 0);
        }
    }
    assert(lhs =~= rhs);
}

/// Adds one facet entry into a table that has one entry per field:
/// an entry with the same field absorbs the count (capped), a new field
/// is appended.
pub(crate) fn fold_in(out: &mut Vec<FacetCount>, fc: FacetCount)
    requires
        distinct_fields(old(out)@),
    ensures
        facet_map(final(out)@) == bump(facet_map(old(out)@), fc.field@, fc.count as int),
        distinct_fields(final(out)@),
{
    let ghost s0 = out@;
    let n = out.len();
    let mut idx: usize = 0;
    while idx < n && !(out[idx].field == fc.field)
        invariant
            0 <= idx <= n,
            n == out@.len(),
            out@ == s0,
            forall|k: int| 0 <= k < idx ==> #[trigger] s0[k].field@ != fc.field@,
        decreases n - idx,
    {
        idx += 1;
    }
    if idx < n {
        let entry = out.remove(idx);
        let c = sat_add_u64(entry.count, fc.count);
        let e = FacetCount { field: entry.field, count: c };
        out.insert(idx, e);
        proof {
            assert(out@ =~= s0.update(idx as int, out@[idx as int]));
            let ev = out@[idx as int];
            lemma_facet_map_update(s0, idx as int, ev);
            lemma_facet_map_at(s0, idx as int);
            assert(map_count(facet_map(s0), ev.field@) == s0[idx as int].count as int);
            assert(facet_map(out@) =~= bump(facet_map(s0), fc.field@, fc.count as int));
            assert forall|i: int, j: int| 0 <= i < j < out@.len() implies out@[i].field@
                != out@[j].field@ by {
                assert(forall|k: int|
                    0 <= k < s0.len() ==> #[trigger] out@[k].field@ == s0[k].field@);
            }
        }
    } else {
        out.push(fc);
        proof {
            assert(out@.drop_last() =~= s0);
            assert(out@.last() == fc);
            assert(facet_map(out@) == bump(facet_map(s0), fc.field@, fc.count as int));
            assert forall|i: int, j: int| 0 <= i < j < out@.len() implies out@[i].field@
                != out@[j].field@ by {
                if j == out@.len() - 1 {
                    assert(s0[i].field@ != fc.field@);
                }
            }
        }
    }
}

/// Merges two facet tables: counts of a shared field add (capped), other
/// fields carry over.
fn merge_facets(a: Vec<FacetCount>, b: Vec<FacetCount>) -> (r: Vec<FacetCount>)
    requires
        distinct_fields(a@),
        distinct_fields(b@),
    ensures
        facet_map(r@) == clamp_map(map_sum(facet_map(a@), facet_map(b@))),
        distinct_fields(r@),
{
    let ghost fa = facet_map(a@);
    let ghost fb = facet_map(b@);
    let mut out = a;
    let mut rest = b;
    while rest.len() > 0
        invariant
            distinct_fields(out@),
            distinct_fields(rest@),
            clamp_map(map_sum(facet_map(out@), facet_map(rest@))) == clamp_map(map_sum(fa, fb)),
        decreases rest@.len(),
    {
        let ghost rest0 = rest@;
        let ghost outpre = out@;
        let ghost x = facet_map(out@);
        let fc = match rest.pop() {
            Some(fc) => fc,
            None => {
                proof {
                    assert(false);
                }
                FacetCount { field: String::new(), count: 0 }
            },
        };
        proof {
            assert(rest@ =~= rest0.drop_last());
            assert(facet_map(rest0) == bump(facet_map(rest@), fc.field@, fc.count as int));
            assert forall|i: int, j: int| 0 <= i < j < rest@.len() implies rest@[i].field@
                != rest@[j].field@ by {
                assert(rest@[i] == rest0[i]);
                assert(rest@[j] == rest0[j]);
            }
        }
        fold_in(&mut out, fc);
        proof {
            lemma_facet_map_bounds(rest@);
            lemma_facet_map_dom(rest@);
            assert(forall|k: Seq<char>|
                facet_map(rest@).dom().contains(k) ==> #[trigger] facet_map(rest@)[k] >= 0);
            assert(forall|k: Seq<char>| x.dom().contains(k) ==> #[trigger] x[k] >= 0) by {
                lemma_facet_map_bounds(outpre);
            }
            lemma_bump_across_sum(x, facet_map(rest@), fc.field@, fc.count as int);
        }
    }
    proof {
        lemma_facet_map_bounds(out@);
        assert(facet_map(rest@) =~= Map::<Seq<char>, int>::empty());
        assert(facet_map(out@) =~= clamp_map(map_sum(facet_map(out@), facet_map(rest@))));
    }
    out
}

/// After taking the element at `i` out of `s` and putting it back at
/// `pos < i`, the multiset is unchanged and the first `i + 1` elements are
/// in rank order.
proof fn lemma_insertion_step(s: Seq<ScoredDoc>, t: Seq<ScoredDoc>, i: int, pos: int)
    requires
        0 <= pos < i < s.len(),
        t == s.remove(i).insert(pos, s[i]),
        sorted_by(s.take(i), doc_order()),
        forall|k: int| 0 <= k < pos ==> doc_le(s[k], #[trigger] s[i]),
        !doc_le(s[pos], s[i]),
    ensures
        t.to_multiset() == s.to_multiset(),
        t.len() == s.len(),
        sorted_by(t.take(i + 1), doc_order()),
{
    lemma_doc_le_properties();
    let m = s[i];
    let s1 = s.remove(i);
    broadcast use group_to_multiset_ensures;

    assert(t =~= s1.take(pos).push(m) + s1.skip(pos));
    lemma_multiset_commutative(s1.take(pos).push(m), s1.skip(pos));
    assert(s1 =~= s1.take(pos) + s1.skip(pos));
    lemma_multiset_commutative(s1.take(pos), s1.skip(pos));
    assert(t.to_multiset() =~= s1.to_multiset().insert(m));
    assert(s1.to_multiset() =~= s.to_multiset().remove(m));
    assert(s.to_multiset().contains(m));
    assert(t.to_multiset() =~= s.to_multiset());

    assert forall|k1: int, k2: int| 0 <= k1 < k2 < i implies doc_le(
        #[trigger] s[k1],
        #[trigger] s[k2],
    ) by {
        assert(s.take(i)[k1] == s[k1]);
        assert(s.take(i)[k2] == s[k2]);
        assert(doc_order()(s.take(i)[k1], s.take(i)[k2]));
    }

    // Positions of `t` up to `i`: s[0..pos], then m, then s[pos..i].
    assert forall|a: int, b: int| 0 <= a < b < i + 1 implies doc_le(
        #[trigger] t.take(i + 1)[a],
        #[trigger] t.take(i + 1)[b],
    ) by {
        assert(forall|k: int| 0 <= k < pos ==> t[k] == s[k]);
        assert(t[pos] == m);
        assert(forall|k: int| pos < k <= i ==> t[k] == s[k - 1]);
        assert(doc_le(m, s[pos]));
        if a < pos && b < pos {
            assert(doc_le(s[a], s[b]));
        } else if a < pos && b == pos {
            assert(doc_le(s[a], m));
        } else if a < pos && b > pos {
            assert(doc_le(s[a], s[b - 1]));
        } else if a == pos {
            assert(doc_le(m, s[pos]));
            if b > pos + 1 {
                assert(doc_le(s[pos], s[b - 1]));
            }
        } else {
            assert(doc_le(s[a - 1], s[b - 1]));
        }
    }
}

/// Merges two search results: hit totals add (capped), hits are pooled
/// and re-ranked, facet counts add per field. The merged view is exactly
/// the capped sum of the two views.
pub fn merge(a: SearchResults, b: SearchResults) -> (r: SearchResults)
    requires
        a.wf(),
        b.wf(),
    ensures
        r@ == clamp_view(sum_views(a@, b@)),
        r.wf(),
{
    let ghost av = a@;
    let ghost bv = b@;
    let hits = sat_add_u64(a.hits, b.hits);
    let mut docs = a.docs;
    let mut bdocs = b.docs;
    let ghost adocs = docs@;
    let ghost bdocs_g = bdocs@;
    docs.append(&mut bdocs);
    sort_docs(&mut docs);
    let facets = merge_facets(a.facets, b.facets);
    let r = SearchResults { hits, docs, facets };
    proof {
        lemma_multiset_commutative(adocs, bdocs_g);
        assert(r@ =~= clamp_view(sum_views(av, bv)));
    }
    r
}

/// Cuts the ranked hit list down to the request's limit; the hit total
/// and the facets are untouched, and rank order is kept.
pub fn trim_limit(r: &mut SearchResults, limit: usize)
    ensures
        final(r).hits == old(r).hits,
        final(r).facets == old(r).facets,
        final(r).docs@ == (if old(r).docs@.len() <= limit {
            old(r).docs@
        } else {
            old(r).docs@.take(limit as int)
        }),
        old(r).wf() ==> final(r).wf(),
{
    let ghost before = r.docs@;
    r.docs.truncate(limit);
    proof {
        if old(r).wf() {
            assert forall|i: int, j: int| 0 <= i < j < r.docs@.len() implies doc_order()(
                #[trigger] r.docs@[i],
                #[trigger] r.docs@[j],
            ) by {
                assert(r.docs@[i] == before[i]);
                assert(r.docs@[j] == before[j]);
                assert(doc_order()(before[i], before[j]));
            }
        }
    }
}

/// Two rank-ordered lists with the same hits are the same list, provided
/// rank keys are unambiguous.
pub proof fn lemma_sorted_unique_keys(s1: Seq<ScoredDoc>, s2: Seq<ScoredDoc>)
    requires
        sorted_by(s1, doc_order()),
        sorted_by(s2, doc_order()),
        distinct_keys(s1),
        s1.to_multiset() == s2.to_multiset(),
    ensures
        s1 == s2,
    decreases s1.len(),
{
    broadcast use group_to_multiset_ensures;

    lemma_doc_le_properties();
    if s1.len() == 0 {
        assert(s2.to_multiset().len() == 0);
        assert(s2 =~= Seq::<ScoredDoc>::empty());
    } else {
        assert(s1.to_multiset().len() == s1.len());
        assert(s2.to_multiset().len() == s2.len());
        assert(s2.len() == s1.len());
        assert(s1.contains(s1[0]));
        assert(s1.to_multiset().count(s1[0]) > 0);
        assert(s2.contains(s1[0]));
        assert(s2.contains(s2[0]));
        assert(s2.to_multiset().count(s2[0]) > 0);
        assert(s1.contains(s2[0]));
        let i = choose|i: int| 0 <= i < s1.len() && s1[i] == s2[0];
        let j = choose|j: int| 0 <= j < s2.len() && s2[j] == s1[0];
        assert(doc_le(s1[0], s2[0])) by {
            if i > 0 {
                assert(doc_order()(s1[0], s1[i]));
            }
        }
        assert(doc_le(s2[0], s1[0])) by {
            if j > 0 {
                assert(doc_order()(s2[0], s2[j]));
            }
        }
        assert(doc_key(s1[0]) == doc_key(s2[0]));
        assert(s1[0] == s2[0]) by {
            if i > 0 {
                assert(doc_key(s1[0]) != doc_key(s1[i]));
                assert(doc_le(s1[i], s1[0]));
            }
        }
        assert(s1.drop_first() =~= s1.remove(0));
        assert(s2.drop_first() =~= s2.remove(0));
        assert(s1.drop_first().to_multiset() =~= s1.to_multiset().remove(s1[0]));
        assert(s2.drop_first().to_multiset() =~= s2.to_multiset().remove(s2[0]));
        assert forall|a: int, b: int| 0 <= a < b < s1.drop_first().len() implies doc_order()(
            #[trigger] s1.drop_first()[a],
            #[trigger] s1.drop_first()[b],
        ) by {
            assert(doc_order()(s1[a + 1], s1[b + 1]));
        }
        assert forall|a: int, b: int| 0 <= a < b < s2.drop_first().len() implies doc_order()(
            #[trigger] s2.drop_first()[a],
            #[trigger] s2.drop_first()[b],
        ) by {
            assert(doc_order()(s2[a + 1], s2[b + 1]));
        }
        assert(distinct_keys(s1.drop_first())) by {
            assert(forall|a: int|
                0 <= a < s1.drop_first().len() ==> #[trigger] s1.drop_first()[a] == s1[a + 1]);
        }
        lemma_sorted_unique_keys(s1.drop_first(), s2.drop_first());
        assert forall|n: int| 0 <= n < s1.len() implies s1[n] == s2[n] by {
            if n > 0 {
                assert(s1.drop_first()[n - 1] == s1[n]);
                assert(s2.drop_first()[n - 1] == s2[n]);
            }
        }
        assert(s1 =~= s2);
    }
}

/// Law: merging partial results is commutative — the summed view does not
/// depend on which side came first.
pub proof fn lemma_sum_views_commutative(x: ResultsView, y: ResultsView)
    ensures
        sum_views(x, y) == sum_views(y, x),
{
    assert(map_sum(x.facets, y.facets) =~= map_sum(y.facets, x.facets));
    assert(sum_views(x, y) =~= sum_views(y, x));
}

/// Law: merging partial results is associative — grouping does not change
/// the summed view.
pub proof fn lemma_sum_views_associative(x: ResultsView, y: ResultsView, z: ResultsView)
    ensures
        sum_views(sum_views(x, y), z) == sum_views(x, sum_views(y, z)),
{
    assert(map_sum(map_sum(x.facets, y.facets), z.facets) =~= map_sum(
        x.facets,
        map_sum(y.facets, z.facets),
    ));
    assert(sum_views(sum_views(x, y), z) =~= sum_views(x, sum_views(y, z)));
}

/// A view whose totals fit the `u64` counters; the view of every
/// executable result is one.
pub open spec fn bounded_view(x: ResultsView) -> bool {
    &&& nonneg_view(x)
    &&& x.hits <= u64::MAX as int
    &&& forall|k: Seq<char>| x.facets.dom().contains(k) ==> #[trigger] x.facets[k] <= u64::MAX as int
}

pub proof fn lemma_view_bounded(r: SearchResults)
    ensures
        bounded_view(r@),
{
    lemma_facet_map_bounds(r.facets@);
}

/// Law: merging with the empty results is the identity.
pub proof fn lemma_merge_identity(x: ResultsView)
    requires
        bounded_view(x),
    ensures
        clamp_view(sum_views(empty_view(), x)) == x,
        clamp_view(sum_views(x, empty_view())) == x,
{
    assert(clamp_view(sum_views(empty_view(), x)) =~= x);
    assert(clamp_view(sum_views(x, empty_view())) =~= x);
}

/// The merge step as a folding operator.
pub open spec fn sum_step() -> spec_fn(ResultsView, ResultsView) -> ResultsView {
    |acc: ResultsView, v: ResultsView| sum_views(acc, v)
}

/// The exact summed view of a sequence of partial results.
pub open spec fn sum_all(s: Seq<ResultsView>) -> ResultsView {
    s.fold_left(empty_view(), sum_step())
}

pub open spec fn views_of(s: Seq<SearchResults>) -> Seq<ResultsView> {
    s.map_values(|r: SearchResults| r@)
}

/// Sums of non-negative views stay non-negative.
pub proof fn lemma_sum_all_nonneg(s: Seq<ResultsView>)
    requires
        forall|i: int| 0 <= i < s.len() ==> nonneg_view(#[trigger] s[i]),
    ensures
        nonneg_view(sum_all(s)),
    decreases s.len(),
{
    if s.len() > 0 {
        assert(forall|i: int|
            0 <= i < s.drop_last().len() ==> nonneg_view(#[trigger] s.drop_last()[i]));
        lemma_sum_all_nonneg(s.drop_last());
        assert(sum_all(s) == sum_views(sum_all(s.drop_last()), s.last()));
        assert(nonneg_view(s.last()));
    }
}

/// Capping early does not change the capped total.
pub proof fn lemma_clamp_absorb(x: ResultsView, y: ResultsView)
    requires
        nonneg_view(x),
        nonneg_view(y),
    ensures
        clamp_view(sum_views(clamp_view(x), y)) == clamp_view(sum_views(x, y)),
{
    let lhs = clamp_view(sum_views(clamp_view(x), y));
    let rhs = clamp_view(sum_views(x, y));
    assert forall|k: Seq<char>| lhs.facets.dom().contains(k) implies lhs.facets[k]
        == rhs.facets[k] by {
        if x.facets.dom().contains(k) {
            assert(x.facets[k] >= 0);
        }
        if y.facets.dom().contains(k) {
            assert(y.facets[k] >= 0);
        }
    }
    assert(lhs.facets =~= rhs.facets);
    assert(lhs =~= rhs);
}

/// Law: the merged view of a batch of partial results does not depend on
/// the order in which they arrive — dispatch order and completion order
/// are irrelevant.
pub proof fn lemma_sum_all_order_independent(s1: Seq<ResultsView>, s2: Seq<ResultsView>)
    requires
        s1.to_multiset() == s2.to_multiset(),
    ensures
        sum_all(s1) == sum_all(s2),
{
    assert forall|x: ResultsView, y: ResultsView, v: ResultsView| #[trigger] sum_step()(
        sum_step()(v, x),
        y,
    ) == sum_step()(sum_step()(v, y), x) by {
        lemma_sum_views_associative(v, x, y);
        lemma_sum_views_associative(v, y, x);
        lemma_sum_views_commutative(x, y);
    }
    assert(vstd::seq_lib::commutative_foldl(sum_step()));
    vstd::seq_lib::lemma_fold_left_permutation(s1, s2, sum_step(), empty_view());
}

/// Law: two merged results with the same view and ranked order are equal
/// outright when rank keys are unambiguous.
pub proof fn lemma_results_agree(u: SearchResults, v: SearchResults)
    requires
        u@ == v@,
        sorted_by(u.docs@, doc_order()),
        sorted_by(v.docs@, doc_order()),
        distinct_keys(u.docs@),
    ensures
        u.hits == v.hits,
        u.docs@ == v.docs@,
        facet_map(u.facets@) == facet_map(v.facets@),
{
    lemma_sorted_unique_keys(u.docs@, v.docs@);
}

/// Folds a batch of partial results into one: the result's view is the
/// capped sum of all the views, whatever the order of the batch.
pub fn fold_results(results: Vec<SearchResults>) -> (r: SearchResults)
    requires
        forall|i: int| 0 <= i < results@.len() ==> (#[trigger] results@[i]).wf(),
    ensures
        r@ == clamp_view(sum_all(views_of(results@))),
        r.wf(),
{
    let ghost all = results@;
    let mut rest = results;
    let total = rest.len();
    let mut acc = SearchResults::empty();
    let mut k: usize = 0;
    proof {
        assert(views_of(all.take(0)) =~= Seq::<ResultsView>::empty());
        assert(clamp_map(Map::<Seq<char>, int>::empty()) =~= Map::<Seq<char>, int>::empty());
        assert(acc@ =~= clamp_view(sum_all(views_of(all.take(0)))));
    }
    while rest.len() > 0
        invariant
            0 <= k <= all.len(),
            all.len() == total as int,
            rest@ == all.skip(k as int),
            acc@ == clamp_view(sum_all(views_of(all.take(k as int)))),
            acc.wf(),
            forall|i: int| 0 <= i < all.len() ==> (#[trigger] all[i]).wf(),
        decreases rest@.len(),
    {
        let ghost pre = views_of(all.take(k as int));
        proof {
            assert(all.skip(k as int).len() > 0);
            assert(k < all.len());
        }
        let x = rest.remove(0);
        proof {
            assert(x == all[k as int]);
            assert(rest@ =~= all.skip(k as int + 1));
        }
        acc = merge(acc, x);
        proof {
            let t = views_of(all.take(k as int + 1));
            assert(t =~= pre.push(x@));
            assert(pre.push(x@).drop_last() =~= pre);
            assert(sum_all(pre.push(x@)) == sum_views(sum_all(pre), x@));
            assert(forall|i: int| 0 <= i < pre.len() ==> nonneg_view(#[trigger] pre[i])) by {
                assert forall|i: int| 0 <= i < pre.len() implies nonneg_view(
                    #[trigger] pre[i],
                ) by {
                    assert(pre[i] == all.take(k as int)[i]@);
                    lemma_view_bounded(all.take(k as int)[i]);
                }
            }
            lemma_sum_all_nonneg(pre);
            lemma_view_bounded(x);
            lemma_clamp_absorb(sum_all(pre), x@);
        }
        k += 1;
    }
    proof {
        assert(all.take(k as int) =~= all);
    }
    acc
}

} // verus!
