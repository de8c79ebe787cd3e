use vstd::prelude::*;
use vstd::string::*;

verus! {

/// The kinds of failure the search core can report.
///
/// `NotFound`: the named index is unknown both locally and remotely.
/// `QueryParse`: the request body or query tree is invalid.
/// `Engine`: the inverted-index engine failed an operation.
/// `DataLoss`: a persisted manifest is unreadable.
/// `Exists`: an index with the requested name already exists.
/// `Transport`: a peer call failed before returning a semantic result.
/// `Unimplemented`: the verb is recognized but not supported.
#[derive(Clone, Copy, PartialEq, Eq, Structural, Debug)]
pub enum ErrorKind {
    NotFound,
    QueryParse,
    Engine,
    DataLoss,
    Exists,
    Transport,
    Unimplemented,
}

/// An error of the search core: a kind together with a human-readable message.
#[derive(Debug)]
pub struct Error {
    pub kind: ErrorKind,
    pub message: String,
}

impl Error {
    pub fn new(kind: ErrorKind, message: String) -> (r: Error)
        ensures
            r.kind == kind,
            r.message@ == message@,
    {
        Error { kind, message }
    }

}

/// Severity rank used by the partial-failure policy: internal failures
/// outrank transport failures, which outrank a plain not-found.
pub open spec fn severity(k: ErrorKind) -> int {
    match k {
        ErrorKind::NotFound => 0,
        ErrorKind::Transport => 1,
        _ => 2,
    }
}

/// Picks the more severe of two error kinds; on a tie the first argument wins.
pub fn worse_kind(a: ErrorKind, b: ErrorKind) -> (r: ErrorKind)
    ensures
        r == (if severity(b) > severity(a) { b } else { a }),
{
    let sa: u8 = severity_rank(a);
    let sb: u8 = severity_rank(b);
    if sb > sa {
        b
    } else {
        a
    }
}

/// Executable twin of `severity`.
pub fn severity_rank(k: ErrorKind) -> (r: u8)
    ensures
        r as int == severity(k),
{
    match k {
        ErrorKind::NotFound => 0,
        ErrorKind::Transport => 1,
        _ => 2,
    }
}

/// The fixed HTTP status for each error kind: not-found maps to 404,
/// a bad query or a name collision to 400, everything else to 500.
pub open spec fn spec_http_status(k: ErrorKind) -> int {
    match k {
        ErrorKind::NotFound => 404,
        ErrorKind::QueryParse => 400,
        ErrorKind::Exists => 400,
        _ => 500,
    }
}

pub fn http_status(k: ErrorKind) -> (r: u16)
    ensures
        r as int == spec_http_status(k),
{
    match k {
        ErrorKind::NotFound => 404,
        ErrorKind::QueryParse => 400,
        ErrorKind::Exists => 400,
        _ => 500,
    }
}

/// The peer-facing status code for each kind, following the usual RPC
/// code numbering: InvalidArgument = 3, NotFound = 5, AlreadyExists = 6,
/// Unimplemented = 12, Internal = 13, Unavailable = 14, DataLoss = 15.
pub open spec fn spec_rpc_code(k: ErrorKind) -> int {
    match k {
        ErrorKind::NotFound => 5,
        ErrorKind::QueryParse => 3,
        ErrorKind::Engine => 13,
        ErrorKind::DataLoss => 15,
        ErrorKind::Exists => 6,
        ErrorKind::Transport => 14,
        ErrorKind::Unimplemented => 12,
    }
}

pub fn rpc_code(k: ErrorKind) -> (r: u32)
    ensures
        r as int == spec_rpc_code(k),
{
    match k {
        ErrorKind::NotFound => 5,
        ErrorKind::QueryParse => 3,
        ErrorKind::Engine => 13,
        ErrorKind::DataLoss => 15,
        ErrorKind::Exists => 6,
        ErrorKind::Transport => 14,
        ErrorKind::Unimplemented => 12,
    }
}

/// Maps a peer-returned status code back to the semantic kind it carries:
/// 5 is a not-found at the peer, 15 a data loss there; any other code is
/// treated as an internal engine failure.
pub open spec fn spec_kind_of_rpc_code(code: int) -> ErrorKind {
    if code == 5 {
        ErrorKind::NotFound
    } else if code == 15 {
        ErrorKind::DataLoss
    } else {
        ErrorKind::Engine
    }
}

pub fn kind_of_rpc_code(code: u32) -> (r: ErrorKind)
    ensures
        r == spec_kind_of_rpc_code(code as int),
{
    if code == 5 {
        ErrorKind::NotFound
    } else if code == 15 {
        ErrorKind::DataLoss
    } else {
        ErrorKind::Engine
    }
}

/// The body of a 404 for an index unknown cluster-wide:
/// `Unknown Index: '<name>' does not exist`.
pub open spec fn spec_unknown_index_message(name: Seq<char>) -> Seq<char> {
    "Unknown Index: '"@ + name + "' does not exist"@
}

pub fn unknown_index_message(name: &str) -> (r: String)
    ensures
        r@ == spec_unknown_index_message(name@),
{
    let mut m = String::from_str("Unknown Index: '");
    m.append(name);
    m.append("' does not exist");
    m
}

pub fn unknown_index_error(name: &str) -> (r: Error)
    ensures
        r.kind == ErrorKind::NotFound,
        r.message@ == spec_unknown_index_message(name@),
{
    Error { kind: ErrorKind::NotFound, message: unknown_index_message(name) }
}

} // verus!
