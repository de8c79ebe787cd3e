use vstd::prelude::*;
use vstd::relations::sorted_by;
use tantivy::Index;
use tantivy::collector::TopDocs;
use tantivy::query::QueryParser;
use tantivy::query::FuzzyTermQuery;
use tantivy::schema::Facet;
use tantivy::collector::FacetCollector;
use crate::error::Error;
use crate::error::ErrorKind;
use crate::query::Query;
use crate::query::Search;
use crate::query::render_query;
use crate::results::FacetCount;
use crate::results::ScoredDoc;
use crate::results::SearchResults;
use crate::results::distinct_fields;
use crate::results::doc_order;
use crate::results::fold_in;
use crate::results::sort_docs;

verus! {

#[verifier::external_type_specification]
#[verifier::external_body]
pub struct ExIndex(tantivy::Index);

#[verifier::external_type_specification]
#[verifier::external_body]
pub struct ExSchema(tantivy::schema::Schema);

/// Holds the engine's single index writer. The writer type's generic is
/// bound by an engine trait, so Verus refuses its declaration; the handle
/// carries it opaquely instead.
#[verifier::external_body]
pub struct EngineWriter {
    writer: tantivy::IndexWriter,
}

fn engine_error(message: String) -> (r: Error)
    ensures
        r.kind == ErrorKind::Engine,
        r.message@ == message@,
{
    Error { kind: ErrorKind::Engine, message }
}

fn parse_error(message: String) -> (r: Error)
    ensures
        r.kind == ErrorKind::QueryParse,
        r.message@ == message@,
{
    Error { kind: ErrorKind::QueryParse, message }
}

fn loss_error(message: String) -> (r: Error)
    ensures
        r.kind == ErrorKind::DataLoss,
        r.message@ == message@,
{
    Error { kind: ErrorKind::DataLoss, message }
}

/// Relies on serde deserialization of `tantivy::schema::Schema`: the text
/// either decodes to a schema or fails.
#[verifier::external_body]
fn schema_from_json(json: &str) -> (r: Result<tantivy::schema::Schema, Error>)
    ensures
        r is Err ==> r->Err_0.kind == ErrorKind::QueryParse,
{
    serde_json::from_str::<tantivy::schema::Schema>(json).map_err(|e| parse_error(e.to_string()))
}

/// Relies on `tantivy::Index::create_in_ram`: builds an index held in
/// memory for the given schema.
#[verifier::external_body]
fn engine_create_in_ram(schema: tantivy::schema::Schema) -> (r: tantivy::Index) {
    tantivy::Index::create_in_ram(schema)
}

/// Relies on `tantivy::Index::create_in_dir`: materializes an index in an
/// existing directory.
#[verifier::external_body]
fn engine_create_in_dir(path: &str, schema: tantivy::schema::Schema) -> (r: Result<
    tantivy::Index,
    Error,
>)
    ensures
        r is Err ==> r->Err_0.kind == ErrorKind::Engine,
{
    tantivy::Index::create_in_dir(path, schema).map_err(|e| engine_error(e.to_string()))
}

/// Relies on `tantivy::Index::writer`: takes the single writer of the
/// index, with the engine's memory arena.
#[verifier::external_body]
fn engine_writer(index: &tantivy::Index) -> (r: Result<EngineWriter, Error>)
    ensures
        r is Err ==> r->Err_0.kind == ErrorKind::Engine,
{
    index.writer(50_000_000).map(|writer| EngineWriter { writer }).map_err(
        |e| engine_error(e.to_string()),
    )
}

/// Relies on `tantivy::TantivyDocument::parse_json` and
/// `IndexWriter::add_document`: parses the document against the index's
/// schema and queues it on the writer's uncommitted set.
#[verifier::external_body]
fn engine_add_json(index: &tantivy::Index, writer: &EngineWriter, doc: &str) -> (r: Result<
    (),
    Error,
>)
    ensures
        r is Err ==> r->Err_0.kind == ErrorKind::Engine,
{
    let parsed = tantivy::TantivyDocument::parse_json(&index.schema(), doc).map_err(
        |e| engine_error(e.to_string()),
    )?;
    writer.writer.add_document(parsed).map(|_| ()).map_err(|e| engine_error(e.to_string()))
}

/// Relies on `Schema::get_field`, `Term::from_field_text` and
/// `IndexWriter::delete_term`: queues the deletion of every document that
/// carries the term.
#[verifier::external_body]
fn engine_delete_term(
    index: &tantivy::Index,
    writer: &EngineWriter,
    field: &str,
    value: &str,
) -> (r: Result<(), Error>)
    ensures
        r is Err ==> r->Err_0.kind == ErrorKind::Engine,
{
    let f = index.schema().get_field(field).map_err(|e| engine_error(e.to_string()))?;
    writer.writer.delete_term(tantivy::Term::from_field_text(f, value));
    Ok(())
}

/// Relies on `tantivy::IndexWriter::commit`: seals the pending mutations
/// and publishes a new point-in-time snapshot to readers.
#[verifier::external_body]
fn engine_commit(writer: &mut EngineWriter) -> (r: Result<(), Error>)
    ensures
        r is Err ==> r->Err_0.kind == ErrorKind::Engine,
{
    writer.writer.commit().map(|_| ()).map_err(|e| engine_error(e.to_string()))
}

/// Relies on `QueryParser::parse_query` and `Searcher::search` with a
/// `TopDocs` collector: returns at most `limit` hits as
/// (score bits, segment, document id), score-descending by the engine's
/// ranking. A malformed query text fails as a parse error; everything
/// else fails as an engine error.
#[verifier::external_body]
fn engine_search_addrs(index: &tantivy::Index, query: &str, limit: usize) -> (r: Result<
    Vec<(u32, u32, u32)>,
    Error,
>)
    requires
        limit >= 1,
    ensures
        r is Ok ==> r->Ok_0@.len() <= limit,
        r is Err ==> (r->Err_0.kind == ErrorKind::QueryParse || r->Err_0.kind
            == ErrorKind::Engine),
{
    let fields = index.schema().fields().map(|(f, _)| f).collect();
    let q = QueryParser::for_index(index, fields).parse_query(query).map_err(
        |e| parse_error(e.to_string()),
    )?;
    let reader = index.reader().map_err(|e| engine_error(e.to_string()))?;
    let hits = reader.searcher().search(&q, &TopDocs::with_limit(limit).order_by_score())
        .map_err(|e| engine_error(e.to_string()))?;
    Ok(hits.into_iter().map(|(s, a)| (s.to_bits(), a.segment_ord, a.doc_id)).collect())
}

/// Relies on `FuzzyTermQuery` and `Searcher::search`: hits within the
/// given edit distance of the term, at most `limit` of them.
#[verifier::external_body]
fn engine_search_fuzzy(
    index: &tantivy::Index,
    field: &str,
    value: &str,
    distance: u8,
    transposition: bool,
    limit: usize,
) -> (r: Result<Vec<(u32, u32, u32)>, Error>)
    requires
        limit >= 1,
    ensures
        r is Ok ==> r->Ok_0@.len() <= limit,
        r is Err ==> (r->Err_0.kind == ErrorKind::QueryParse || r->Err_0.kind
            == ErrorKind::Engine),
{
    let f = index.schema().get_field(field).map_err(|e| parse_error(e.to_string()))?;
    let q = FuzzyTermQuery::new(tantivy::Term::from_field_text(f, value), distance, transposition);
    let reader = index.reader().map_err(|e| engine_error(e.to_string()))?;
    let hits = reader.searcher().search(&q, &TopDocs::with_limit(limit).order_by_score())
        .map_err(|e| engine_error(e.to_string()))?;
    Ok(hits.into_iter().map(|(s, a)| (s.to_bits(), a.segment_ord, a.doc_id)).collect())
}

/// Relies on `FacetCollector` and `Searcher::search`: counts, among the
/// query's hits, the direct children of one facet path in one facet
/// field. The path is parsed with `Facet::from_text` first, since the
/// collector's own conversion panics on a malformed path (the later
/// `get` re-parses the same, already-validated path); a single path per
/// collector also keeps clear of its ancestor-facet panic.
#[verifier::external_body]
fn engine_facet_counts(index: &tantivy::Index, query: &str, field: &str, path: &str) -> (r: Result<
    Vec<(String, u64)>,
    Error,
>)
    ensures
        r is Err ==> (r->Err_0.kind == ErrorKind::QueryParse || r->Err_0.kind
            == ErrorKind::Engine),
{
    let facet = Facet::from_text(path).map_err(|e| parse_error(e.to_string()))?;
    let fields = index.schema().fields().map(|(f, _)| f).collect();
    let q = QueryParser::for_index(index, fields).parse_query(query).map_err(
        |e| parse_error(e.to_string()),
    )?;
    let mut collector = FacetCollector::for_field(field);
    collector.add_facet(facet);
    let reader = index.reader().map_err(|e| engine_error(e.to_string()))?;
    let counts = reader.searcher().search(&q, &collector).map_err(|e| engine_error(e.to_string()))?;
    Ok(counts.get(path).map(|(f, c)| (f.to_path_string(), c)).collect())
}

/// Relies on `Searcher::doc` and `Document::to_json`: fetches the stored
/// document at the given address and renders it as JSON text. The fetch
/// indexes the snapshot's segment list by the given ordinal and would
/// panic past its end — a fresh snapshot may hold fewer segments than the
/// one that produced the address — so an out-of-range ordinal is refused
/// here as an engine error.
#[verifier::external_body]
fn engine_fetch_doc(index: &tantivy::Index, segment: u32, doc: u32) -> (r: Result<String, Error>)
    ensures
        r is Err ==> r->Err_0.kind == ErrorKind::Engine,
{
    let reader = index.reader().map_err(|e| engine_error(e.to_string()))?;
    let searcher = reader.searcher();
    if segment as usize >= searcher.segment_readers().len() {
        return Err(engine_error("segment ordinal out of range".to_string()));
    }
    let addr = tantivy::DocAddress { segment_ord: segment, doc_id: doc };
    let d: tantivy::TantivyDocument = searcher.doc(addr).map_err(
        |e| engine_error(e.to_string()),
    )?;
    Ok(tantivy::schema::Document::to_json(&d, &index.schema()))
}

/// Relies on `tantivy::Index::load_metas` and serde serialization of
/// `IndexMeta`: reads the on-disk manifest and renders it as JSON text.
/// An unreadable manifest is a data loss.
#[verifier::external_body]
fn engine_meta_json(index: &tantivy::Index) -> (r: Result<String, Error>)
    ensures
        r is Err ==> r->Err_0.kind == ErrorKind::DataLoss,
{
    let metas = index.load_metas().map_err(|e| loss_error(e.to_string()))?;
    serde_json::to_string(&metas).map_err(|e| loss_error(e.to_string()))
}

/// Relies on `Searcher::space_usage` and serde serialization of
/// `SearcherSpaceUsage`: the per-segment space summary as JSON text.
#[verifier::external_body]
fn engine_space_json(index: &tantivy::Index) -> (r: Result<String, Error>)
    ensures
        r is Err ==> r->Err_0.kind == ErrorKind::Engine,
{
    let reader = index.reader().map_err(|e| engine_error(e.to_string()))?;
    let usage = reader.searcher().space_usage().map_err(|e| engine_error(e.to_string()))?;
    serde_json::to_string(&usage).map_err(|e| engine_error(e.to_string()))
}

/// One local index: its name and the engine state behind it. The handle
/// owns the single writer for its lifetime; every search takes a fresh
/// reader snapshot, so it sees all commits sealed before it started.
pub struct IndexHandle {
    name: String,
    index: tantivy::Index,
    writer: EngineWriter,
}

impl IndexHandle {
    pub closed spec fn name_view(&self) -> Seq<char> {
        self.name@
    }

    pub fn get_name(&self) -> (r: &str)
        ensures
            r@ == self.name_view(),
    {
        self.name.as_str()
    }

    /// Builds a handle over an index held in memory; the schema arrives
    /// as JSON text.
    pub fn create_in_memory(name: String, schema_json: &str) -> (r: Result<IndexHandle, Error>)
        ensures
            r is Ok ==> r->Ok_0.name_view() == name@,
            r is Err ==> (r->Err_0.kind == ErrorKind::QueryParse || r->Err_0.kind
                == ErrorKind::Engine),
    {
        let schema = match schema_from_json(schema_json) {
            Ok(s) => s,
            Err(e) => {
                return Err(e);
            },
        };
        let index = engine_create_in_ram(schema);
        let writer = match engine_writer(&index) {
            Ok(w) => w,
            Err(e) => {
                return Err(e);
            },
        };
        Ok(IndexHandle { name, index, writer })
    }

    /// Builds a handle over an on-disk index at `base_path/name`; the
    /// directory must already exist.
    pub fn create_managed(base_path: &str, name: String, schema_json: &str) -> (r: Result<
        IndexHandle,
        Error,
    >)
        ensures
            r is Ok ==> r->Ok_0.name_view() == name@,
            r is Err ==> (r->Err_0.kind == ErrorKind::QueryParse || r->Err_0.kind
                == ErrorKind::Engine),
    {
        let schema = match schema_from_json(schema_json) {
            Ok(s) => s,
            Err(e) => {
                return Err(e);
            },
        };
        let mut path = base_path.to_owned();
        path.append("/");
        path.append(name.as_str());
        let index = match engine_create_in_dir(path.as_str(), schema) {
            Ok(i) => i,
            Err(e) => {
                return Err(e);
            },
        };
        let writer = match engine_writer(&index) {
            Ok(w) => w,
            Err(e) => {
                return Err(e);
            },
        };
        Ok(IndexHandle { name, index, writer })
    }

    /// Searches the current reader snapshot: the query tree is rendered
    /// in the engine's text query language and executed there; the hits
    /// come back ranked, re-sorted into the library's rank order, and
    /// cut to the request's limit. Facet requests are counted against
    /// the same query through the engine's facet collector, one entry
    /// per facet path. Fuzzy terms go through the engine's native fuzzy
    /// search, which carries no facet counting.
    pub fn search_index(&self, search: Search) -> (r: Result<SearchResults, Error>)
        ensures
            r is Ok ==> r->Ok_0.wf(),
            r is Ok ==> r->Ok_0.docs@.len() <= search.limit,
            r is Ok ==> r->Ok_0.hits == r->Ok_0.docs@.len(),
            r is Ok ==> (forall|i: int|
                0 <= i < r->Ok_0.docs@.len() ==> (#[trigger] r->Ok_0.docs@[i]).peer == 0),
            r is Err ==> (r->Err_0.kind == ErrorKind::QueryParse || r->Err_0.kind
                == ErrorKind::Engine),
            search.query matches Some(q) ==> ((!(q matches Query::Fuzzy { .. })
                && !crate::query::renderable(q)) ==> (r is Err && r->Err_0.kind
                == ErrorKind::QueryParse)),
            (r is Ok && search.facets is None) ==> r->Ok_0.facets@.len() == 0,
    {
        let s = search.normalize();
        let lim: usize = if s.limit == 0 {
            1
        } else {
            s.limit
        };
        let q = match s.query {
            Some(q) => q,
            None => {
                proof {
                    assert(false);
                }
                Query::All
            },
        };
        let mut facet_out: Vec<FacetCount> = Vec::new();
        let addrs = match &q {
            Query::Fuzzy { field, value, distance, transposition } => {
                match engine_search_fuzzy(
                    &self.index,
                    field.as_str(),
                    value.as_str(),
                    *distance,
                    *transposition,
                    lim,
                ) {
                    Ok(a) => a,
                    Err(e) => {
                        return Err(e);
                    },
                }
            },
            _ => {
                let text = match render_query(&q) {
                    Ok(t) => t,
                    Err(e) => {
                        return Err(e);
                    },
                };
                let a = match engine_search_addrs(&self.index, text.as_str(), lim) {
                    Ok(a) => a,
                    Err(e) => {
                        return Err(e);
                    },
                };
                match &s.facets {
                    None => {},
                    Some(fr) => {
                        let np = fr.paths.len();
                        let mut pi: usize = 0;
                        while pi < np
                            invariant
                                np == fr.paths@.len(),
                                0 <= pi <= np,
                                distinct_fields(facet_out@),
                                search.query matches Some(qq) ==> (qq matches Query::Fuzzy {
                                    ..
                                } || crate::query::renderable(qq)),
                                search.facets is Some,
                            decreases np - pi,
                        {
                            let mut counts = match engine_facet_counts(
                                &self.index,
                                text.as_str(),
                                fr.field.as_str(),
                                fr.paths[pi].as_str(),
                            ) {
                                Ok(c) => c,
                                Err(e) => {
                                    return Err(e);
                                },
                            };
                            while counts.len() > 0
                                invariant
                                    distinct_fields(facet_out@),
                                decreases counts@.len(),
                            {
                                let (path, count) = match counts.pop() {
                                    Some(pc) => pc,
                                    None => {
                                        proof {
                                            assert(false);
                                        }
                                        (String::new(), 0)
                                    },
                                };
                                fold_in(&mut facet_out, FacetCount { field: path, count });
                            }
                            pi += 1;
                        }
                    },
                }
                a
            },
        };
        let mut docs: Vec<ScoredDoc> = Vec::new();
        let n = addrs.len();
        let mut i: usize = 0;
        while i < n
            invariant
                n == addrs@.len(),
                0 <= i <= n,
                docs@.len() == i,
                forall|k: int| 0 <= k < i ==> (#[trigger] docs@[k]).peer == 0,
                search.query matches Some(qq) ==> (qq matches Query::Fuzzy { .. }
                    || crate::query::renderable(qq)),
                distinct_fields(facet_out@),
                search.facets is None ==> facet_out@.len() == 0,
            decreases n - i,
        {
            let (score, segment, doc) = addrs[i];
            let payload = match engine_fetch_doc(&self.index, segment, doc) {
                Ok(p) => p,
                Err(e) => {
                    return Err(e);
                },
            };
            docs.push(ScoredDoc { score, peer: 0, segment, doc, payload });
            i += 1;
        }
        let ghost unsorted = docs@;
        sort_docs(&mut docs);
        proof {
            broadcast use vstd::seq_lib::group_to_multiset_ensures;

            assert forall|k: int| 0 <= k < docs@.len() implies (#[trigger] docs@[k]).peer
                == 0 by {
                assert(docs@.contains(docs@[k]));
                assert(docs@.to_multiset().count(docs@[k]) > 0);
                assert(unsorted.to_multiset().count(docs@[k]) > 0);
                assert(unsorted.contains(docs@[k]));
                let m = choose|m: int| 0 <= m < unsorted.len() && unsorted[m] == docs@[k];
            }
        }
        let ghost full = docs@;
        docs.truncate(s.limit);
        proof {
            assert forall|a: int, b: int| 0 <= a < b < docs@.len() implies doc_order()(
                #[trigger] docs@[a],
                #[trigger] docs@[b],
            ) by {
                assert(docs@[a] == full[a]);
                assert(docs@[b] == full[b]);
                assert(doc_order()(full[a], full[b]));
            }
        }
        let hits = docs.len() as u64;
        let results = SearchResults { hits, docs, facets: facet_out };
        proof {
            assert(sorted_by(results.docs@, doc_order()));
            assert(distinct_fields(results.facets@));
        }
        Ok(results)
    }

    /// Queues one document, given as JSON text, on the writer; it becomes
    /// visible to readers only after the next commit.
    pub fn add_document(&self, doc: &str) -> (r: Result<(), Error>)
        ensures
            r is Err ==> r->Err_0.kind == ErrorKind::Engine,
    {
        engine_add_json(&self.index, &self.writer, doc)
    }

    /// Queues deletions for every given (field, value) term; same
    /// visibility rule as adds.
    pub fn delete_terms(&self, terms: &Vec<crate::query::KeyValue>) -> (r: Result<(), Error>)
        ensures
            r is Err ==> r->Err_0.kind == ErrorKind::Engine,
    {
        let n = terms.len();
        let mut i: usize = 0;
        while i < n
            invariant
                n == terms@.len(),
                0 <= i <= n,
            decreases n - i,
        {
            match engine_delete_term(
                &self.index,
                &self.writer,
                terms[i].field.as_str(),
                terms[i].value.as_str(),
            ) {
                Ok(_) => {},
                Err(e) => {
                    return Err(e);
                },
            }
            i += 1;
        }
        Ok(())
    }

    /// Seals the pending mutations and publishes a new reader snapshot.
    pub fn commit(&mut self) -> (r: Result<(), Error>)
        ensures
            r is Err ==> r->Err_0.kind == ErrorKind::Engine,
            final(self).name_view() == old(self).name_view(),
    {
        engine_commit(&mut self.writer)
    }

    /// Reads the on-disk manifest as JSON text.
    pub fn load_meta_json(&self) -> (r: Result<String, Error>)
        ensures
            r is Err ==> r->Err_0.kind == ErrorKind::DataLoss,
    {
        engine_meta_json(&self.index)
    }

    /// The space-usage summary of the current snapshot as JSON text.
    pub fn space_json(&self) -> (r: Result<String, Error>)
        ensures
            r is Err ==> r->Err_0.kind == ErrorKind::Engine,
    {
        engine_space_json(&self.index)
    }
}

} // verus!
