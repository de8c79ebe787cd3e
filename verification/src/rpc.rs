use vstd::prelude::*;
use vstd::string::StringExecFns;
use crate::catalog::IndexCatalog;
use crate::error::ErrorKind;
use crate::query::KeyValue;
use crate::query::Search;
use crate::results::SearchResults;

verus! {

/// The peer-facing result envelope: code 0 is success; non-zero codes
/// are semantic — 1 is an engine failure — with a human-readable message.
#[derive(Debug)]
pub struct ResultReply {
    pub code: i32,
    pub message: String,
}

/// The peer-facing search envelope: the result envelope, and the hits
/// themselves, which the transport layer serializes.
#[derive(Debug)]
pub struct SearchReply {
    pub result: Option<ResultReply>,
    pub doc: Option<SearchResults>,
}

#[derive(Debug)]
pub struct PingReply {
    pub status: String,
}

/// An out-of-band status: a transport-level code and message, as in the
/// usual RPC numbering (NotFound = 5, Unimplemented = 12, Internal = 13,
/// DataLoss = 15).
#[derive(Debug)]
pub struct Status {
    pub code: u32,
    pub message: String,
}

pub enum SearchIndexOutcome {
    Reply(SearchReply),
    Status(Status),
}

pub enum PlaceOutcome {
    Reply(ResultReply),
    Status(Status),
}

pub enum SummaryOutcome {
    Summary(String),
    Status(Status),
}

pub fn ok_result() -> (r: ResultReply)
    ensures
        r.code == 0,
        r.message@ == Seq::<char>::empty(),
{
    ResultReply { code: 0, message: String::new() }
}

pub fn create_result(code: i32, message: String) -> (r: ResultReply)
    ensures
        r.code == code,
        r.message@ == message@,
{
    ResultReply { code, message }
}

pub fn create_search_reply(result: Option<ResultReply>, doc: Option<SearchResults>) -> (r:
    SearchReply)
    ensures
        r.result == result,
        r.doc == doc,
{
    SearchReply { result, doc }
}

pub open spec fn spec_index_not_found_message(name: Seq<char>) -> Seq<char> {
    "Index: "@ + name + " not found"@
}

pub open spec fn spec_could_not_create_message(name: Seq<char>) -> Seq<char> {
    "Could not create index: "@ + name
}

pub open spec fn spec_insert_failed_message(name: Seq<char>) -> Seq<char> {
    "Insert: "@ + name + " failed"@
}

pub open spec fn spec_invalid_document_message(name: Seq<char>) -> Seq<char> {
    "Invalid Document request: "@ + name
}

pub open spec fn spec_add_doc_failed_message(name: Seq<char>) -> Seq<char> {
    "Add Document Failed: "@ + name
}

pub open spec fn spec_delete_doc_failed_message(name: Seq<char>) -> Seq<char> {
    "Delete Document Failed: "@ + name
}

pub open spec fn spec_metas_failed_message(name: Seq<char>) -> Seq<char> {
    "Could not load metas for: "@ + name
}

fn index_not_found_message(name: &str) -> (r: String)
    ensures
        r@ == spec_index_not_found_message(name@),
{
    let mut m = String::from_str("Index: ");
    m.append(name);
    m.append(" not found");
    m
}

/// The names of every local index, for the peer-facing listing.
pub fn list_indexes(catalog: &IndexCatalog) -> (r: Vec<String>)
    ensures
        r@.map_values(|s: String| s@) == catalog.local_names(),
{
    catalog.list()
}

/// Serves a peer's search against a local index. An unknown name is a
/// not-found status; an undecodable query is an internal status carrying
/// the decoder's message; an engine failure is a code-1 reply; a
/// successful search is a code-0 reply with the hits.
pub fn search_index(catalog: &IndexCatalog, index: &str, query: Result<Search, String>) -> (r:
    SearchIndexOutcome)
    ensures
        !catalog.has_local(index@) ==> (r matches SearchIndexOutcome::Status(st) && st.code == 5
            && st.message@ == spec_index_not_found_message(index@)),
        r matches SearchIndexOutcome::Status(st) ==> ((st.code == 5 && !catalog.has_local(index@))
            || (st.code == 13 && catalog.has_local(index@) && query is Err && st.message@
            == query->Err_0@)),
        r matches SearchIndexOutcome::Reply(rep) ==> (catalog.has_local(index@) && query is Ok
            && rep.result is Some),
        r matches SearchIndexOutcome::Reply(rep) ==> ((rep.result->0.code == 0 && rep.doc is Some
            && rep.doc->0.wf() && rep.result->0.message@ == Seq::<char>::empty()) || (
        rep.result->0.code == 1 && rep.doc is None)),
{
    match catalog.get_index(index) {
        Err(_) => SearchIndexOutcome::Status(
            Status { code: 5, message: index_not_found_message(index) },
        ),
        Ok(handle) => {
            match query {
                Err(m) => SearchIndexOutcome::Status(Status { code: 13, message: m }),
                Ok(q) => {
                    match handle.search_index(q) {
                        Ok(results) => SearchIndexOutcome::Reply(
                            create_search_reply(Some(ok_result()), Some(results)),
                        ),
                        Err(e) => SearchIndexOutcome::Reply(
                            create_search_reply(Some(create_result(1, e.message)), None),
                        ),
                    }
                },
            }
        },
    }
}

/// Serves a peer's request to create an index: decodes the schema,
/// materializes the index under the catalog's base path, and registers
/// it. An invalid schema is a not-found status, as the wire contract has
/// it; a creation or registration failure is internal.
pub fn place_index(catalog: &mut IndexCatalog, name: String, schema_json: &str) -> (r:
    PlaceOutcome)
    requires
        old(catalog).wf(),
    ensures
        final(catalog).wf(),
        r matches PlaceOutcome::Reply(rep) ==> (rep.code == 0 && rep.message@
            == Seq::<char>::empty() && !old(catalog).has_local(name@)
            && final(catalog).local_names() == old(catalog).local_names().push(name@)),
        r matches PlaceOutcome::Status(_) ==> *final(catalog) == *old(catalog),
        final(catalog).remote_names() == old(catalog).remote_names(),
        final(catalog).base_path_view() == old(catalog).base_path_view(),
        r matches PlaceOutcome::Status(st) ==> (st.code == 5 || st.code == 13),
        r matches PlaceOutcome::Status(st) ==> (st.code == 5 ==> st.message@
            == "Invalid schema in request"@),
        r matches PlaceOutcome::Status(st) ==> (st.code == 13 ==> (st.message@
            == spec_could_not_create_message(name@) || st.message@ == spec_insert_failed_message(
            name@,
        ))),
        r matches PlaceOutcome::Status(st) ==> final(catalog).local_names() == old(
            catalog,
        ).local_names(),
{
    let base = catalog.base_path().to_owned();
    match IndexCatalog::create_from_managed(base.as_str(), name.as_str(), schema_json) {
        Err(e) => {
            if matches!(e.kind, ErrorKind::QueryParse) {
                PlaceOutcome::Status(
                    Status { code: 5, message: String::from_str("Invalid schema in request") },
                )
            } else {
                let mut m = String::from_str("Could not create index: ");
                m.append(name.as_str());
                PlaceOutcome::Status(Status { code: 13, message: m })
            }
        },
        Ok(handle) => {
            let mut failed = String::from_str("Insert: ");
            failed.append(name.as_str());
            failed.append(" failed");
            match catalog.add_index(name, handle) {
                Ok(_) => PlaceOutcome::Reply(ok_result()),
                Err(_) => PlaceOutcome::Status(Status { code: 13, message: failed }),
            }
        },
    }
}

/// Serves a peer's request to add one document to a local index. The
/// document arrives as JSON text, already unwrapped by the transport;
/// an absent payload marks an undecodable request.
pub fn place_document(catalog: &IndexCatalog, index: &str, document: Option<String>) -> (r:
    PlaceOutcome)
    ensures
        !catalog.has_local(index@) ==> (r matches PlaceOutcome::Status(st) && st.code == 5
            && st.message@ == "Could not find index"@),
        r matches PlaceOutcome::Reply(rep) ==> (rep.code == 0 && rep.message@
            == Seq::<char>::empty() && catalog.has_local(index@) && document is Some),
        r matches PlaceOutcome::Status(st) ==> (st.code == 5 || st.code == 13),
        catalog.has_local(index@) && document is None ==> (r matches PlaceOutcome::Status(st)
            && st.code == 13 && st.message@ == spec_invalid_document_message(index@)),
        catalog.has_local(index@) && document is Some ==> (r matches PlaceOutcome::Status(st)
            ==> (st.code == 13 && st.message@ == spec_add_doc_failed_message(index@))),
{
    match catalog.get_index(index) {
        Err(_) => PlaceOutcome::Status(
            Status { code: 5, message: String::from_str("Could not find index") },
        ),
        Ok(handle) => {
            match document {
                None => {
                    let mut m = String::from_str("Invalid Document request: ");
                    m.append(index);
                    PlaceOutcome::Status(Status { code: 13, message: m })
                },
                Some(doc) => {
                    match handle.add_document(doc.as_str()) {
                        Ok(_) => PlaceOutcome::Reply(ok_result()),
                        Err(_) => {
                            let mut m = String::from_str("Add Document Failed: ");
                            m.append(index);
                            PlaceOutcome::Status(Status { code: 13, message: m })
                        },
                    }
                },
            }
        },
    }
}

/// Serves a peer's request to delete by terms from a local index; the
/// terms arrive already unwrapped, an absent list marks an undecodable
/// request.
pub fn delete_document(catalog: &IndexCatalog, index: &str, terms: Option<Vec<KeyValue>>) -> (r:
    PlaceOutcome)
    ensures
        !catalog.has_local(index@) ==> (r matches PlaceOutcome::Status(st) && st.code == 5
            && st.message@ == "Could not find index"@),
        r matches PlaceOutcome::Reply(rep) ==> (rep.code == 0 && rep.message@
            == Seq::<char>::empty() && catalog.has_local(index@) && terms is Some),
        r matches PlaceOutcome::Status(st) ==> (st.code == 5 || st.code == 13),
        catalog.has_local(index@) && terms is None ==> (r matches PlaceOutcome::Status(st)
            && st.code == 13 && st.message@ == spec_invalid_document_message(index@)),
        catalog.has_local(index@) && terms is Some ==> (r matches PlaceOutcome::Status(st)
            ==> (st.code == 13 && st.message@ == spec_delete_doc_failed_message(index@))),
{
    match catalog.get_index(index) {
        Err(_) => PlaceOutcome::Status(
            Status { code: 5, message: String::from_str("Could not find index") },
        ),
        Ok(handle) => {
            match terms {
                None => {
                    let mut m = String::from_str("Invalid Document request: ");
                    m.append(index);
                    PlaceOutcome::Status(Status { code: 13, message: m })
                },
                Some(ts) => {
                    match handle.delete_terms(&ts) {
                        Ok(_) => PlaceOutcome::Reply(ok_result()),
                        Err(_) => {
                            let mut m = String::from_str("Delete Document Failed: ");
                            m.append(index);
                            PlaceOutcome::Status(Status { code: 13, message: m })
                        },
                    }
                },
            }
        },
    }
}

/// Serves a peer's request for an index's manifest: the manifest as JSON
/// text, a not-found status for an unknown name, a data-loss status for
/// an unreadable manifest.
pub fn get_summary(catalog: &IndexCatalog, index: &str) -> (r: SummaryOutcome)
    ensures
        !catalog.has_local(index@) ==> (r matches SummaryOutcome::Status(st) && st.code == 5
            && st.message@ == "Could not find index"@),
        r matches SummaryOutcome::Summary(_) ==> catalog.has_local(index@),
        r matches SummaryOutcome::Status(st) ==> (st.code == 5 || st.code == 15),
        r matches SummaryOutcome::Status(st) ==> (st.code == 5 ==> !catalog.has_local(index@)),
        r matches SummaryOutcome::Status(st) ==> (st.code == 15 ==> (catalog.has_local(index@)
            && st.message@ == spec_metas_failed_message(index@))),
{
    match catalog.get_index(index) {
        Err(_) => SummaryOutcome::Status(
            Status { code: 5, message: String::from_str("Could not find index") },
        ),
        Ok(handle) => {
            match handle.load_meta_json() {
                Ok(json) => SummaryOutcome::Summary(json),
                Err(_) => {
                    let mut m = String::from_str("Could not load metas for: ");
                    m.append(index);
                    SummaryOutcome::Status(Status { code: 15, message: m })
                },
            }
        },
    }
}

/// The bulk-insert verb is recognized at the wire but not supported.
pub fn bulk_insert() -> (r: Status)
    ensures
        r.code == 12,
        r.message@ == "Bulk insert is not implemented"@,
{
    Status { code: 12, message: String::from_str("Bulk insert is not implemented") }
}

pub fn ping() -> (r: PingReply)
    ensures
        r.status@ == "OK"@,
{
    PingReply { status: String::from_str("OK") }
}

} // verus!
