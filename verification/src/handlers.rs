use vstd::prelude::*;
use vstd::string::StringExecFns;
use crate::catalog::IndexCatalog;
use crate::error::Error;
use crate::error::ErrorKind;

verus! {

/// The body of the summary endpoint: the index manifest as JSON text,
/// and, when asked for, the per-segment space usage as JSON text. The
/// shape leaves room for more fields without breaking readers.
#[derive(Debug)]
pub struct SummaryResponse {
    pub summaries: String,
    pub segment_sizes: Option<String>,
}

impl SummaryResponse {
    pub fn new(summaries: String, segment_sizes: Option<String>) -> (r: SummaryResponse)
        ensures
            r.summaries@ == summaries@,
            r.segment_sizes == segment_sizes,
    {
        SummaryResponse { summaries, segment_sizes }
    }
}

pub open spec fn spec_summary_missing_message(name: Seq<char>) -> Seq<char> {
    "Index "@ + name + " does not exist"@
}

/// The summary endpoint: the manifest of a local index, with the space
/// usage when `include_sizes` asks for it. An unknown name is a
/// not-found.
pub fn summary(catalog: &IndexCatalog, index: &str, include_sizes: bool) -> (r: Result<
    SummaryResponse,
    Error,
>)
    ensures
        !catalog.has_local(index@) ==> (r is Err && r->Err_0.kind == ErrorKind::NotFound
            && r->Err_0.message@ == spec_summary_missing_message(index@)),
        (r is Err && r->Err_0.kind == ErrorKind::NotFound) ==> !catalog.has_local(index@),
        r is Ok ==> catalog.has_local(index@),
        r is Ok ==> (r->Ok_0.segment_sizes is Some <==> include_sizes),
        r is Err ==> (r->Err_0.kind == ErrorKind::NotFound || r->Err_0.kind == ErrorKind::DataLoss
            || r->Err_0.kind == ErrorKind::Engine),
{
    match catalog.get_index(index) {
        Err(_) => {
            let mut m = String::from_str("Index ");
            m.append(index);
            m.append(" does not exist");
            Err(Error::new(ErrorKind::NotFound, m))
        },
        Ok(handle) => {
            let metas = match handle.load_meta_json() {
                Ok(j) => j,
                Err(e) => {
                    return Err(e);
                },
            };
            if include_sizes {
                match handle.space_json() {
                    Ok(sizes) => Ok(SummaryResponse::new(metas, Some(sizes))),
                    Err(e) => Err(e),
                }
            } else {
                Ok(SummaryResponse::new(metas, None))
            }
        },
    }
}

/// The flush endpoint: seals the pending mutations of a local index and
/// publishes a new reader snapshot. An unknown name is a not-found.
pub fn flush(catalog: &mut IndexCatalog, index: &str) -> (r: Result<(), Error>)
    requires
        old(catalog).wf(),
    ensures
        final(catalog).wf(),
        !old(catalog).has_local(index@) <==> (r is Err && r->Err_0.kind == ErrorKind::NotFound),
        r is Err ==> (r->Err_0.kind == ErrorKind::NotFound || r->Err_0.kind == ErrorKind::Engine),
        final(catalog).local_names() == old(catalog).local_names(),
        final(catalog).remote_names() == old(catalog).remote_names(),
{
    catalog.commit_index(index)
}

} // verus!
