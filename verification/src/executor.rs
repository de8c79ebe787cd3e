use vstd::prelude::*;
use vstd::relations::sorted_by;
use crate::catalog::IndexCatalog;
use crate::error::Error;
use crate::error::ErrorKind;
use crate::error::severity;
use crate::error::severity_rank;
use crate::error::unknown_index_error;
use crate::query::Search;
use crate::results::ResultsView;
use crate::results::ScoredDoc;
use crate::results::SearchResults;
use crate::results::clamp_view;
use crate::results::distinct_keys;
use crate::results::doc_order;
use crate::results::facet_map;
use crate::results::fold_results;
use crate::results::lemma_results_agree;
use crate::results::lemma_sum_all_order_independent;
use crate::results::sort_docs;
use crate::results::sum_all;
use crate::results::sum_views;
use crate::results::trim_limit;
use crate::results::views_of;

verus! {

/// Stamps every hit of a partial result with the participant that
/// produced it — the executor's tie-break key — and restores rank order.
pub fn tag_peer(r: &mut SearchResults, peer: u64)
    requires
        old(r).wf(),
    ensures
        final(r).wf(),
        final(r).hits == old(r).hits,
        final(r).facets == old(r).facets,
        final(r).docs@.to_multiset() == old(r).docs@.map_values(
            |d: ScoredDoc|
                ScoredDoc {
                    score: d.score,
                    peer: peer,
                    segment: d.segment,
                    doc: d.doc,
                    payload: d.payload,
                },
        ).to_multiset(),
        final(r).docs@.len() == old(r).docs@.len(),
{
    let ghost before = r.docs@;
    let mut rest = Vec::new();
    core::mem::swap(&mut rest, &mut r.docs);
    let total = rest.len();
    let mut out: Vec<ScoredDoc> = Vec::new();
    let mut k: usize = 0;
    while rest.len() > 0
        invariant
            before.len() == total as int,
            0 <= k <= before.len(),
            rest@ == before.skip(k as int),
            out@.len() == k,
            forall|m: int|
                0 <= m < k ==> #[trigger] out@[m] == (ScoredDoc {
                    score: before[m].score,
                    peer: peer,
                    segment: before[m].segment,
                    doc: before[m].doc,
                    payload: before[m].payload,
                }),
        decreases rest@.len(),
    {
        proof {
            assert(before.skip(k as int).len() > 0);
        }
        let d = rest.remove(0);
        proof {
            assert(d == before[k as int]);
            assert(rest@ =~= before.skip(k as int + 1));
        }
        out.push(
            ScoredDoc {
                score: d.score,
                peer,
                segment: d.segment,
                doc: d.doc,
                payload: d.payload,
            },
        );
        k += 1;
    }
    proof {
        assert(out@ =~= before.map_values(
            |d: ScoredDoc|
                ScoredDoc {
                    score: d.score,
                    peer: peer,
                    segment: d.segment,
                    doc: d.doc,
                    payload: d.payload,
                },
        ));
    }
    r.docs = out;
    sort_docs(&mut r.docs);
}

/// The partial results of a batch that succeeded, in arrival order.
pub open spec fn ok_results(s: Seq<Result<SearchResults, Error>>) -> Seq<SearchResults>
    decreases s.len(),
{
    if s.len() == 0 {
        Seq::empty()
    } else {
        let rest = ok_results(s.drop_last());
        match s.last() {
            Ok(r) => rest.push(r),
            Err(_) => rest,
        }
    }
}

pub open spec fn any_ok(s: Seq<Result<SearchResults, Error>>) -> bool {
    exists|i: int| 0 <= i < s.len() && s[i] is Ok
}

/// The severity of the worst failure in the batch; -1 when none failed.
pub open spec fn worst_sev(s: Seq<Result<SearchResults, Error>>) -> int
    decreases s.len(),
{
    if s.len() == 0 {
        -1
    } else {
        let rest = worst_sev(s.drop_last());
        match s.last() {
            Err(e) => if severity(e.kind) > rest {
                severity(e.kind)
            } else {
                rest
            },
            Ok(_) => rest,
        }
    }
}

/// Folds the participants' outcomes under the partial-failure policy: if
/// at least one participant succeeded, the response is the merged partial
/// results, cut to the limit; if all failed, the most severe failure is
/// surfaced.
pub fn merge_outcomes(outcomes: Vec<Result<SearchResults, Error>>, limit: usize) -> (r: Result<
    SearchResults,
    Error,
>)
    requires
        outcomes@.len() > 0,
        forall|i: int|
            0 <= i < outcomes@.len() && outcomes@[i] is Ok ==> (#[trigger] outcomes@[i])->Ok_0.wf(),
    ensures
        r is Ok <==> any_ok(outcomes@),
        r is Ok ==> r->Ok_0.wf() && r->Ok_0.docs@.len() <= limit,
        r is Ok ==> r->Ok_0.hits as int == clamp_view(
            sum_all(views_of(ok_results(outcomes@))),
        ).hits,
        r is Ok ==> facet_map(r->Ok_0.facets@) == clamp_view(
            sum_all(views_of(ok_results(outcomes@))),
        ).facets,
        r is Ok ==> (exists|full: Seq<ScoredDoc>|
            sorted_by(full, doc_order()) && full.to_multiset() == clamp_view(
                sum_all(views_of(ok_results(outcomes@))),
            ).docs && r->Ok_0.docs@ == (if full.len() <= limit {
                full
            } else {
                full.take(limit as int)
            })),
        r is Err ==> severity(r->Err_0.kind) == worst_sev(outcomes@),
        r is Err ==> (exists|i: int|
            0 <= i < outcomes@.len() && outcomes@[i] is Err
                && (#[trigger] outcomes@[i])->Err_0.kind == r->Err_0.kind),
{
    let ghost all = outcomes@;
    let mut rest = outcomes;
    let total = rest.len();
    let mut oks: Vec<SearchResults> = Vec::new();
    let mut worst: Option<Error> = None;
    let mut k: usize = 0;
    while rest.len() > 0
        invariant
            0 <= k <= all.len(),
            all.len() == total as int,
            rest@ == all.skip(k as int),
            oks@ == ok_results(all.take(k as int)),
            forall|i: int| 0 <= i < oks@.len() ==> (#[trigger] oks@[i]).wf(),
            forall|i: int|
                0 <= i < all.len() && all[i] is Ok ==> (#[trigger] all[i])->Ok_0.wf(),
            worst is None <==> worst_sev(all.take(k as int)) == -1,
            worst is Some ==> severity(worst->0.kind) == worst_sev(all.take(k as int)),
            worst is Some ==> (exists|i: int|
                0 <= i < k && all[i] is Err && (#[trigger] all[i])->Err_0.kind
                    == worst->0.kind),
        decreases rest@.len(),
    {
        proof {
            assert(all.skip(k as int).len() > 0);
            assert(k < all.len());
            assert(all.take(k as int + 1).drop_last() =~= all.take(k as int));
            assert(all.take(k as int + 1).last() == all[k as int]);
        }
        let x = rest.remove(0);
        proof {
            assert(x == all[k as int]);
            assert(rest@ =~= all.skip(k as int + 1));
        }
        match x {
            Ok(res) => {
                oks.push(res);
            },
            Err(e) => {
                worst = match worst {
                    None => Some(e),
                    Some(w) => {
                        if severity_rank(e.kind) > severity_rank(w.kind) {
                            Some(e)
                        } else {
                            Some(w)
                        }
                    },
                };
            },
        }
        k += 1;
    }
    proof {
        assert(all.take(total as int) =~= all);
    }
    if oks.len() > 0 {
        proof {
            assert(any_ok(all)) by {
                if ok_results(all).len() > 0 {
                    lemma_ok_results_len(all);
                }
            }
        }
        let ghost oksg = oks@;
        let mut merged = fold_results(oks);
        let ghost full = merged.docs@;
        trim_limit(&mut merged, limit);
        proof {
            let m = clamp_view(sum_all(views_of(ok_results(all))));
            assert(oksg == ok_results(all));
            assert(sorted_by(full, doc_order()));
            assert(full.to_multiset() == m.docs);
            assert(merged.docs@ == (if full.len() <= limit {
                full
            } else {
                full.take(limit as int)
            }));
            assert(merged.docs@.len() <= limit);
        }
        Ok(merged)
    } else {
        proof {
            assert(!any_ok(all)) by {
                if any_ok(all) {
                    lemma_ok_results_len(all);
                }
            }
            assert(worst_sev(all) >= 0) by {
                lemma_worst_sev_bounds(all);
            }
        }
        match worst {
            Some(e) => Err(e),
            None => {
                proof {
                    assert(false);
                }
                Err(unknown_index_error(""))
            },
        }
    }
}

/// A batch has a successful entry exactly when its successful sub-batch
/// is non-empty.
proof fn lemma_ok_results_len(s: Seq<Result<SearchResults, Error>>)
    ensures
        ok_results(s).len() > 0 <==> any_ok(s),
    decreases s.len(),
{
    if s.len() > 0 {
        lemma_ok_results_len(s.drop_last());
        if s.last() is Ok {
            assert(s[s.len() - 1] is Ok);
        } else {
            assert forall|i: int| 0 <= i < s.len() && s[i] is Ok implies any_ok(
                s.drop_last(),
            ) by {
                assert(s.drop_last()[i] == s[i]);
            }
        }
    }
}

/// A batch with no successful entry and at least one entry has a worst
/// failure of real severity.
proof fn lemma_worst_sev_bounds(s: Seq<Result<SearchResults, Error>>)
    requires
        s.len() > 0,
        !any_ok(s),
    ensures
        worst_sev(s) >= 0,
    decreases s.len(),
{
    assert(!(s[s.len() - 1] is Ok));
    if s.len() > 1 {
        assert forall|i: int| 0 <= i < s.drop_last().len() implies !(#[trigger] s.drop_last()[i]
            is Ok) by {
            assert(s.drop_last()[i] == s[i]);
        }
        lemma_worst_sev_bounds(s.drop_last());
    }
}

/// Two outcome batches answer alike: successes at the same positions,
/// the same error values, and successes with the same hit and facet
/// totals. Stamping participant ids onto hits preserves this.
pub open spec fn outcomes_correspond(
    s1: Seq<Result<SearchResults, Error>>,
    s2: Seq<Result<SearchResults, Error>>,
) -> bool {
    &&& s1.len() == s2.len()
    &&& forall|i: int| 0 <= i < s1.len() ==> ((#[trigger] s1[i]) is Ok <==> s2[i] is Ok)
    &&& forall|i: int|
        0 <= i < s1.len() && s1[i] is Err ==> (#[trigger] s1[i])->Err_0 == s2[i]->Err_0
    &&& forall|i: int|
        0 <= i < s1.len() && s1[i] is Ok ==> ((#[trigger] s1[i])->Ok_0.hits == s2[i]->Ok_0.hits
            && facet_map(s1[i]->Ok_0.facets@) == facet_map(s2[i]->Ok_0.facets@))
}

/// Corresponding batches have the same successes, the same worst
/// severity, and the same summed hit and facet totals.
proof fn lemma_correspond_sums(
    s1: Seq<Result<SearchResults, Error>>,
    s2: Seq<Result<SearchResults, Error>>,
)
    requires
        outcomes_correspond(s1, s2),
    ensures
        any_ok(s1) <==> any_ok(s2),
        worst_sev(s1) == worst_sev(s2),
        sum_all(views_of(ok_results(s1))).hits == sum_all(views_of(ok_results(s2))).hits,
        sum_all(views_of(ok_results(s1))).facets == sum_all(views_of(ok_results(s2))).facets,
    decreases s1.len(),
{
    if s1.len() == 0 {
        assert(views_of(ok_results(s1)) =~= Seq::<ResultsView>::empty());
        assert(views_of(ok_results(s2)) =~= Seq::<ResultsView>::empty());
    } else {
        let n = s1.len() - 1;
        let p1 = s1.drop_last();
        let p2 = s2.drop_last();
        assert(outcomes_correspond(p1, p2)) by {
            assert(forall|i: int| 0 <= i < p1.len() ==> #[trigger] p1[i] == s1[i]);
            assert(forall|i: int| 0 <= i < p2.len() ==> #[trigger] p2[i] == s2[i]);
        }
        lemma_correspond_sums(p1, p2);
        assert(any_ok(s1) <==> (any_ok(p1) || s1[n] is Ok)) by {
            if any_ok(s1) {
                let i = choose|i: int| 0 <= i < s1.len() && s1[i] is Ok;
                if i < n {
                    assert(p1[i] == s1[i]);
                }
            }
            if any_ok(p1) {
                let i = choose|i: int| 0 <= i < p1.len() && p1[i] is Ok;
                assert(s1[i] == p1[i]);
            }
        }
        assert(any_ok(s2) <==> (any_ok(p2) || s2[n] is Ok)) by {
            if any_ok(s2) {
                let i = choose|i: int| 0 <= i < s2.len() && s2[i] is Ok;
                if i < n {
                    assert(p2[i] == s2[i]);
                }
            }
            if any_ok(p2) {
                let i = choose|i: int| 0 <= i < p2.len() && p2[i] is Ok;
                assert(s2[i] == p2[i]);
            }
        }
        if s1[n] is Ok {
            assert(s2[n] is Ok);
            let a1 = s1[n]->Ok_0;
            let a2 = s2[n]->Ok_0;
            assert(ok_results(s1) == ok_results(p1).push(a1));
            assert(ok_results(s2) == ok_results(p2).push(a2));
            assert(views_of(ok_results(s1)) =~= views_of(ok_results(p1)).push(a1@));
            assert(views_of(ok_results(s2)) =~= views_of(ok_results(p2)).push(a2@));
            assert(views_of(ok_results(p1)).push(a1@).drop_last() =~= views_of(ok_results(p1)));
            assert(views_of(ok_results(p2)).push(a2@).drop_last() =~= views_of(ok_results(p2)));
            assert(sum_all(views_of(ok_results(s1))) == sum_views(
                sum_all(views_of(ok_results(p1))),
                a1@,
            ));
            assert(sum_all(views_of(ok_results(s2))) == sum_views(
                sum_all(views_of(ok_results(p2))),
                a2@,
            ));
            assert(a1@.hits == a2@.hits);
            assert(a1@.facets == a2@.facets);
        } else {
            assert(s2[n] is Err);
            assert(ok_results(s1) == ok_results(p1));
            assert(ok_results(s2) == ok_results(p2));
            assert(s1[n]->Err_0 == s2[n]->Err_0);
        }
    }
}

/// The federated search path: normalize the request, resolve the
/// participants — the local handle when the catalog holds the name, and
/// the peers' partial results gathered by the caller — fold what
/// succeeded under the partial-failure policy, and cut the hit list to
/// the request's limit. A name with no participant at all is unknown
/// cluster-wide. When the name is not local, the response is pinned to
/// the supplied peer outcomes: it succeeds exactly when one of them did,
/// its totals are the capped sums of theirs, and a total failure
/// surfaces their worst severity.
pub fn doc_search(
    catalog: &IndexCatalog,
    index: &str,
    body: Search,
    remote: Vec<Result<SearchResults, Error>>,
) -> (r: Result<SearchResults, Error>)
    requires
        catalog.wf(),
        forall|i: int|
            0 <= i < remote@.len() && remote@[i] is Ok ==> (#[trigger] remote@[i])->Ok_0.wf(),
    ensures
        (!catalog.has_local(index@) && remote@.len() == 0) ==> (r is Err && r->Err_0.kind
            == ErrorKind::NotFound && r->Err_0.message@ == crate::error::spec_unknown_index_message(
            index@,
        )),
        (!catalog.has_local(index@) && !catalog.has_remote(index@)) ==> (r is Err
            && r->Err_0.kind == ErrorKind::NotFound && r->Err_0.message@
            == crate::error::spec_unknown_index_message(index@)),
        r is Ok ==> r->Ok_0.wf() && r->Ok_0.docs@.len() <= body.limit,
        (!catalog.has_local(index@) && catalog.has_remote(index@) && remote@.len() > 0) ==> (
        r is Ok <==> any_ok(remote@)),
        (!catalog.has_local(index@) && catalog.has_remote(index@) && remote@.len() > 0 && r is Ok)
            ==> (r->Ok_0.hits as int == clamp_view(
            sum_all(views_of(ok_results(remote@))),
        ).hits && facet_map(r->Ok_0.facets@) == clamp_view(
            sum_all(views_of(ok_results(remote@))),
        ).facets),
        (!catalog.has_local(index@) && catalog.has_remote(index@) && remote@.len() > 0 && r is Err)
            ==> (severity(r->Err_0.kind) == worst_sev(remote@) && (exists|i: int|
            0 <= i < remote@.len() && remote@[i] is Err && (#[trigger] remote@[i])->Err_0.kind
                == r->Err_0.kind)),
{
    let s = body.normalize();
    let limit = s.limit;
    let mut outcomes: Vec<Result<SearchResults, Error>> = Vec::new();
    if catalog.index_exists(index) {
        match catalog.get_index(index) {
            Ok(_) => {
                let local = catalog.search_local_index(index, s);
                outcomes.push(local);
            },
            Err(_) => {},
        }
    } else {
        return Err(unknown_index_error(index));
    }
    proof {
        if !catalog.has_local(index@) {
            assert(remote@.take(0) =~= Seq::<Result<SearchResults, Error>>::empty());
        }
    }
    let mut rest = remote;
    let mut peer: u64 = 1;
    while rest.len() > 0
        invariant
            forall|i: int|
                0 <= i < outcomes@.len() && outcomes@[i] is Ok ==> (
                #[trigger] outcomes@[i])->Ok_0.wf(),
            forall|i: int|
                0 <= i < rest@.len() && rest@[i] is Ok ==> (#[trigger] rest@[i])->Ok_0.wf(),
            outcomes@.len() == (if catalog.has_local(index@) {
                1int
            } else {
                0int
            }) + (remote@.len() - rest@.len()),
            rest@ == remote@.skip(remote@.len() - rest@.len()),
            rest@.len() <= remote@.len(),
            !catalog.has_local(index@) ==> outcomes_correspond(
                outcomes@,
                remote@.take(outcomes@.len() as int),
            ),
        decreases rest@.len(),
    {
        let ghost kpre = outcomes@.len() as int;
        let ghost outpre = outcomes@;
        let ghost restpre = rest@;
        let x = rest.remove(0);
        proof {
            if !catalog.has_local(index@) {
                assert(restpre[0] == remote@[kpre]);
                assert(x == remote@[kpre]);
            }
            assert(rest@ =~= remote@.skip(remote@.len() - rest@.len()));
        }
        match x {
            Ok(mut res) => {
                let ghost res0 = res;
                tag_peer(&mut res, peer);
                outcomes.push(Ok(res));
                proof {
                    if !catalog.has_local(index@) {
                        assert(facet_map(res.facets@) == facet_map(res0.facets@));
                        assert(outcomes@.drop_last() =~= outpre);
                        lemma_correspond_extend(outpre, outcomes@, remote@, kpre);
                    }
                }
            },
            Err(e) => {
                outcomes.push(Err(e));
                proof {
                    if !catalog.has_local(index@) {
                        assert(outcomes@.drop_last() =~= outpre);
                        lemma_correspond_extend(outpre, outcomes@, remote@, kpre);
                    }
                }
            },
        }
        if peer < u64::MAX {
            peer += 1;
        }
    }
    if outcomes.len() == 0 {
        return Err(unknown_index_error(index));
    }
    let ghost outcomesg = outcomes@;
    proof {
        if !catalog.has_local(index@) {
            assert(remote@.take(outcomesg.len() as int) =~= remote@);
        }
    }
    let merged = merge_outcomes(outcomes, limit);
    proof {
        if !catalog.has_local(index@) && catalog.has_remote(index@) && remote@.len() > 0 {
            lemma_correspond_sums(outcomesg, remote@);
            if merged is Err {
                let i = choose|i: int|
                    0 <= i < outcomesg.len() && outcomesg[i] is Err && (
                    #[trigger] outcomesg[i])->Err_0.kind == merged->Err_0.kind;
                assert(remote@[i] is Err);
                assert(remote@[i]->Err_0 == outcomesg[i]->Err_0);
            }
        }
    }
    match merged {
        Ok(m) => Ok(m),
        Err(e) => Err(e),
    }
}

/// Appending corresponding entries keeps two batches corresponding.
proof fn lemma_correspond_extend(
    pre: Seq<Result<SearchResults, Error>>,
    cur: Seq<Result<SearchResults, Error>>,
    all: Seq<Result<SearchResults, Error>>,
    k: int,
)
    requires
        0 <= k < all.len(),
        cur.len() == k + 1,
        pre == cur.drop_last(),
        outcomes_correspond(pre, all.take(k)),
        cur[k] is Ok <==> all[k] is Ok,
        cur[k] is Err ==> cur[k]->Err_0 == all[k]->Err_0,
        cur[k] is Ok ==> (cur[k]->Ok_0.hits == all[k]->Ok_0.hits && facet_map(
            cur[k]->Ok_0.facets@,
        ) == facet_map(all[k]->Ok_0.facets@)),
    ensures
        outcomes_correspond(cur, all.take(k + 1)),
{
    let t = all.take(k + 1);
    assert(t.len() == cur.len());
    assert(forall|i: int| 0 <= i < k ==> #[trigger] pre[i] == cur[i]);
    assert(forall|i: int| 0 <= i <= k ==> #[trigger] t[i] == all[i]);
    assert(forall|i: int| 0 <= i < k ==> #[trigger] all.take(k)[i] == all[i]);
    assert forall|i: int| 0 <= i < cur.len() implies ((#[trigger] cur[i]) is Ok <==> t[i]
        is Ok) by {
        if i < k {
            assert(pre[i] is Ok <==> all.take(k)[i] is Ok);
        }
    }
    assert forall|i: int| 0 <= i < cur.len() && cur[i] is Err implies (#[trigger] cur[i])->Err_0
        == t[i]->Err_0 by {
        if i < k {
            assert(pre[i]->Err_0 == all.take(k)[i]->Err_0);
        }
    }
    assert forall|i: int| 0 <= i < cur.len() && cur[i] is Ok implies ((
    #[trigger] cur[i])->Ok_0.hits == t[i]->Ok_0.hits && facet_map(cur[i]->Ok_0.facets@)
        == facet_map(t[i]->Ok_0.facets@)) by {
        if i < k {
            assert(pre[i]->Ok_0.hits == all.take(k)[i]->Ok_0.hits);
            assert(facet_map(pre[i]->Ok_0.facets@) == facet_map(all.take(k)[i]->Ok_0.facets@));
        }
    }
}

/// The all-documents request: the default search over an index, with the
/// same participant and partial-failure rules as `doc_search`.
pub fn all_docs(
    catalog: &IndexCatalog,
    index: &str,
    remote: Vec<Result<SearchResults, Error>>,
) -> (r: Result<SearchResults, Error>)
    requires
        catalog.wf(),
        forall|i: int|
            0 <= i < remote@.len() && remote@[i] is Ok ==> (#[trigger] remote@[i])->Ok_0.wf(),
    ensures
        (!catalog.has_local(index@) && remote@.len() == 0) ==> (r is Err && r->Err_0.kind
            == ErrorKind::NotFound && r->Err_0.message@ == crate::error::spec_unknown_index_message(
            index@,
        )),
        (!catalog.has_local(index@) && !catalog.has_remote(index@)) ==> (r is Err
            && r->Err_0.kind == ErrorKind::NotFound && r->Err_0.message@
            == crate::error::spec_unknown_index_message(index@)),
        r is Ok ==> r->Ok_0.wf() && r->Ok_0.docs@.len() <= crate::query::DEFAULT_LIMIT,
        (!catalog.has_local(index@) && catalog.has_remote(index@) && remote@.len() > 0) ==> (
        r is Ok <==> any_ok(remote@)),
        (!catalog.has_local(index@) && catalog.has_remote(index@) && remote@.len() > 0 && r is Ok)
            ==> (r->Ok_0.hits as int == clamp_view(
            sum_all(views_of(ok_results(remote@))),
        ).hits && facet_map(r->Ok_0.facets@) == clamp_view(
            sum_all(views_of(ok_results(remote@))),
        ).facets),
        (!catalog.has_local(index@) && catalog.has_remote(index@) && remote@.len() > 0 && r is Err)
            ==> (severity(r->Err_0.kind) == worst_sev(remote@) && (exists|i: int|
            0 <= i < remote@.len() && remote@[i] is Err && (#[trigger] remote@[i])->Err_0.kind
                == r->Err_0.kind)),
{
    doc_search(catalog, index, Search::all_docs(), remote)
}

/// Law: the executor's output does not depend on dispatch order or
/// completion order. Two merges of the same collection of partial
/// results agree on the hit total and the facet totals outright, and on
/// the ranked document list itself when rank keys are distinct.
pub proof fn lemma_executor_order_independent(
    u: SearchResults,
    v: SearchResults,
    s1: Seq<ResultsView>,
    s2: Seq<ResultsView>,
)
    requires
        s1.to_multiset() == s2.to_multiset(),
        u@ == clamp_view(sum_all(s1)),
        v@ == clamp_view(sum_all(s2)),
        sorted_by(u.docs@, doc_order()),
        sorted_by(v.docs@, doc_order()),
        distinct_keys(u.docs@),
    ensures
        u.hits == v.hits,
        u.docs@ == v.docs@,
        facet_map(u.facets@) == facet_map(v.facets@),
{
    lemma_sum_all_order_independent(s1, s2);
    lemma_results_agree(u, v);
}

} // verus!
