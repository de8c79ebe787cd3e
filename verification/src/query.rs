use vstd::prelude::*;
use vstd::string::StrSliceExecFns;
use vstd::string::StringExecFns;
use crate::error::Error;
use crate::error::ErrorKind;

verus! {

/// One field paired with one value.
#[derive(Debug)]
pub struct KeyValue {
    pub field: String,
    pub value: String,
}

/// A facet request: the facet field and the paths to count under it.
#[derive(Debug)]
pub struct FacetRequest {
    pub field: String,
    pub paths: Vec<String>,
}

/// The query tree: a tagged sum of the shapes a search request may take.
/// An absent tree is normalized to `All`.
#[derive(Debug)]
pub enum Query {
    All,
    Exact(KeyValue),
    Phrase { field: String, terms: Vec<String> },
    Fuzzy { field: String, value: String, distance: u8, transposition: bool },
    Range { field: String, gte: Option<i64>, lte: Option<i64>, gt: Option<i64>, lt: Option<i64> },
    Regex { field: String, pattern: String },
    Boolean { must: Vec<Query>, must_not: Vec<Query>, should: Vec<Query> },
    Raw { raw: String },
}

/// A search request: an optional query tree, optional facet requests, and
/// the hit limit.
#[derive(Debug)]
pub struct Search {
    pub query: Option<Query>,
    pub facets: Option<FacetRequest>,
    pub limit: usize,
}

/// The page size used when a request does not carry a query of its own.
pub const DEFAULT_LIMIT: usize = 100;

impl Search {
    pub fn new(query: Option<Query>, facets: Option<FacetRequest>, limit: usize) -> (r: Search)
        ensures
            r.query == query,
            r.facets == facets,
            r.limit == limit,
    {
        Search { query, facets, limit }
    }

    /// The request for every document, used when no query tree is given.
    pub fn all_docs() -> (r: Search)
        ensures
            r.query == Some(Query::All),
            r.facets is None,
            r.limit == DEFAULT_LIMIT,
    {
        Search { query: Some(Query::All), facets: None, limit: DEFAULT_LIMIT }
    }

    /// Normalizes the request: an absent query tree becomes the
    /// all-documents query; limit and facets are untouched.
    pub fn normalize(self) -> (r: Search)
        ensures
            r.query == (if self.query is None {
                Some(Query::All)
            } else {
                self.query
            }),
            r.facets == self.facets,
            r.limit == self.limit,
    {
        match self.query {
            None => Search { query: Some(Query::All), facets: self.facets, limit: self.limit },
            Some(q) => Search { query: Some(q), facets: self.facets, limit: self.limit },
        }
    }
}

/// The decimal digit characters.
pub open spec fn digit_char(d: int) -> char {
    if d == 0 {
        '0'
    } else if d == 1 {
        '1'
    } else if d == 2 {
        '2'
    } else if d == 3 {
        '3'
    } else if d == 4 {
        '4'
    } else if d == 5 {
        '5'
    } else if d == 6 {
        '6'
    } else if d == 7 {
        '7'
    } else if d == 8 {
        '8'
    } else {
        '9'
    }
}

/// The decimal rendering of a natural number, most significant digit
/// first.
pub open spec fn dec_str(n: nat) -> Seq<char>
    decreases n,
{
    if n < 10 {
        seq![digit_char(n as int)]
    } else {
        dec_str(n / 10).push(digit_char((n % 10) as int))
    }
}

/// The decimal rendering of an integer, with a leading minus sign when
/// negative.
pub open spec fn int_str(n: int) -> Seq<char> {
    if n < 0 {
        seq!['-'] + dec_str((-n) as nat)
    } else {
        dec_str(n as nat)
    }
}

fn digit_str(d: u64) -> (r: &'static str)
    requires
        d < 10,
    ensures
        r@ == seq![digit_char(d as int)],
{
    let r = if d == 0 {
        "0"
    } else if d == 1 {
        "1"
    } else if d == 2 {
        "2"
    } else if d == 3 {
        "3"
    } else if d == 4 {
        "4"
    } else if d == 5 {
        "5"
    } else if d == 6 {
        "6"
    } else if d == 7 {
        "7"
    } else if d == 8 {
        "8"
    } else {
        "9"
    };
    proof {
        reveal_strlit("0");
        reveal_strlit("1");
        reveal_strlit("2");
        reveal_strlit("3");
        reveal_strlit("4");
        reveal_strlit("5");
        reveal_strlit("6");
        reveal_strlit("7");
        reveal_strlit("8");
        reveal_strlit("9");
        assert(r@ =~= seq![digit_char(d as int)]);
    }
    r
}

/// Renders a `u64` in decimal.
pub fn u64_string(n: u64) -> (r: String)
    ensures
        r@ == dec_str(n as nat),
    decreases n,
{
    if n < 10 {
        digit_str(n).to_owned()
    } else {
        let mut s = u64_string(n / 10);
        s.append(digit_str(n % 10));
        proof {
            assert(s@ =~= dec_str((n / 10) as nat).push(digit_char((n % 10) as int)));
        }
        s
    }
}

/// Renders an `i64` in decimal.
pub fn i64_string(n: i64) -> (r: String)
    ensures
        r@ == int_str(n as int),
{
    if n >= 0 {
        u64_string(n as u64)
    } else {
        let mag: u64 = ((-(n + 1)) as u64) + 1;
        let mut s = String::from_str("-");
        s.append(u64_string(mag).as_str());
        proof {
            reveal_strlit("-");
            assert(mag as int == -(n as int));
            assert(s@ =~= int_str(n as int));
        }
        s
    }
}

/// The characters the engine's text query language reserves; in field
/// names and term values they are written behind a backslash.
pub open spec fn is_special(c: char) -> bool {
    ||| c == '+'
    ||| c == '^'
    ||| c == '`'
    ||| c == ':'
    ||| c == '{'
    ||| c == '}'
    ||| c == '"'
    ||| c == '\''
    ||| c == '['
    ||| c == ']'
    ||| c == '('
    ||| c == ')'
    ||| c == '!'
    ||| c == '\\'
    ||| c == '*'
    ||| c == ' '
}

fn special_char(c: char) -> (r: bool)
    ensures
        r == is_special(c),
{
    c == '+' || c == '^' || c == '`' || c == ':' || c == '{' || c == '}' || c == '"' || c == '\''
        || c == '[' || c == ']' || c == '(' || c == ')' || c == '!' || c == '\\' || c == '*'
        || c == ' '
}

/// A bare word with the reserved characters escaped, from position `i`.
pub open spec fn escaped_from(s: Seq<char>, i: int) -> Seq<char>
    decreases s.len() - i,
{
    if i < 0 || i >= s.len() {
        Seq::empty()
    } else {
        (if is_special(s[i]) {
            seq!['\\', s[i]]
        } else {
            seq![s[i]]
        }) + escaped_from(s, i + 1)
    }
}

pub open spec fn escaped_text(s: Seq<char>) -> Seq<char> {
    escaped_from(s, 0)
}

/// A phrase word as written between quotes: quotes and backslashes
/// escaped, everything else as it is.
pub open spec fn quoted_from(s: Seq<char>, i: int) -> Seq<char>
    decreases s.len() - i,
{
    if i < 0 || i >= s.len() {
        Seq::empty()
    } else {
        (if s[i] == '"' || s[i] == '\\' {
            seq!['\\', s[i]]
        } else {
            seq![s[i]]
        }) + quoted_from(s, i + 1)
    }
}

pub open spec fn quoted_text(s: Seq<char>) -> Seq<char> {
    quoted_from(s, 0)
}

/// A regex body as written between slashes: the delimiting slash
/// escaped, everything else as it is.
pub open spec fn regex_from(s: Seq<char>, i: int) -> Seq<char>
    decreases s.len() - i,
{
    if i < 0 || i >= s.len() {
        Seq::empty()
    } else {
        (if s[i] == '/' {
            seq!['\\', s[i]]
        } else {
            seq![s[i]]
        }) + regex_from(s, i + 1)
    }
}

pub open spec fn regex_text(s: Seq<char>) -> Seq<char> {
    regex_from(s, 0)
}

/// Escapes a bare word for the engine's text query language.
pub fn escape_text(s: &str) -> (r: String)
    ensures
        r@ == escaped_text(s@),
{
    let n = s.unicode_len();
    let mut out = String::new();
    let mut i: usize = 0;
    while i < n
        invariant
            n == s@.len(),
            0 <= i <= n,
            out@ + escaped_from(s@, i as int) == escaped_from(s@, 0),
        decreases n - i,
    {
        let ghost before = out@;
        let c = s.get_char(i);
        if special_char(c) {
            out.append("\\");
        }
        out.append(s.substring_char(i, i + 1));
        proof {
            reveal_strlit("\\");
            assert(s@.subrange(i as int, i as int + 1) =~= seq![s@[i as int]]);
            if is_special(s@[i as int]) {
                assert(out@ =~= before + seq!['\\', s@[i as int]]);
            } else {
                assert(out@ =~= before + seq![s@[i as int]]);
            }
            assert(out@ + escaped_from(s@, i as int + 1) =~= before + escaped_from(
                s@,
                i as int,
            ));
        }
        i += 1;
    }
    proof {
        assert(escaped_from(s@, n as int) =~= Seq::<char>::empty());
        assert(out@ =~= out@ + escaped_from(s@, n as int));
    }
    out
}

/// Escapes one phrase word for quoting.
pub fn escape_quoted(s: &str) -> (r: String)
    ensures
        r@ == quoted_text(s@),
{
    let n = s.unicode_len();
    let mut out = String::new();
    let mut i: usize = 0;
    while i < n
        invariant
            n == s@.len(),
            0 <= i <= n,
            out@ + quoted_from(s@, i as int) == quoted_from(s@, 0),
        decreases n - i,
    {
        let ghost before = out@;
        let c = s.get_char(i);
        if c == '"' || c == '\\' {
            out.append("\\");
        }
        out.append(s.substring_char(i, i + 1));
        proof {
            reveal_strlit("\\");
            assert(s@.subrange(i as int, i as int + 1) =~= seq![s@[i as int]]);
            if s@[i as int] == '"' || s@[i as int] == '\\' {
                assert(out@ =~= before + seq!['\\', s@[i as int]]);
            } else {
                assert(out@ =~= before + seq![s@[i as int]]);
            }
            assert(out@ + quoted_from(s@, i as int + 1) =~= before + quoted_from(s@, i as int));
        }
        i += 1;
    }
    proof {
        assert(quoted_from(s@, n as int) =~= Seq::<char>::empty());
        assert(out@ =~= out@ + quoted_from(s@, n as int));
    }
    out
}

/// Escapes a regex body for slash delimiting.
pub fn escape_regex(s: &str) -> (r: String)
    ensures
        r@ == regex_text(s@),
{
    let n = s.unicode_len();
    let mut out = String::new();
    let mut i: usize = 0;
    while i < n
        invariant
            n == s@.len(),
            0 <= i <= n,
            out@ + regex_from(s@, i as int) == regex_from(s@, 0),
        decreases n - i,
    {
        let ghost before = out@;
        let c = s.get_char(i);
        if c == '/' {
            out.append("\\");
        }
        out.append(s.substring_char(i, i + 1));
        proof {
            reveal_strlit("\\");
            assert(s@.subrange(i as int, i as int + 1) =~= seq![s@[i as int]]);
            if s@[i as int] == '/' {
                assert(out@ =~= before + seq!['\\', s@[i as int]]);
            } else {
                assert(out@ =~= before + seq![s@[i as int]]);
            }
            assert(out@ + regex_from(s@, i as int + 1) =~= before + regex_from(s@, i as int));
        }
        i += 1;
    }
    proof {
        assert(regex_from(s@, n as int) =~= Seq::<char>::empty());
        assert(out@ =~= out@ + regex_from(s@, n as int));
    }
    out
}

/// Whether the engine's text query language can express the tree: every
/// shape but fuzzy terms, which have no written form there.
pub open spec fn renderable(q: Query) -> bool
    decreases q, 1int, 0int,
{
    match q {
        Query::Fuzzy { .. } => false,
        Query::Boolean { must, must_not, should } => {
            &&& all_renderable(must@, 0)
            &&& all_renderable(must_not@, 0)
            &&& all_renderable(should@, 0)
        },
        _ => true,
    }
}

pub open spec fn all_renderable(qs: Seq<Query>, i: int) -> bool
    decreases qs, 0int, qs.len() - i,
{
    if i < 0 || i >= qs.len() {
        true
    } else {
        renderable(qs[i]) && all_renderable(qs, i + 1)
    }
}

/// The engine text of a query tree: terms as `field:value`, phrases
/// quoted, ranges with `TO` and bracket kinds for the bound kinds,
/// regexes slash-delimited, boolean groups parenthesized with `+` for
/// must and `-` for must-not.
pub open spec fn query_text(q: Query) -> Seq<char>
    decreases q, 1int, 0int,
{
    match q {
        Query::All => "*"@,
        Query::Exact(kv) => escaped_text(kv.field@) + ":"@ + escaped_text(kv.value@),
        Query::Phrase { field, terms } => escaped_text(field@) + ":\""@ + terms_text(terms@, 0)
            + "\""@,
        Query::Fuzzy { .. } => Seq::empty(),
        Query::Range { field, gte, lte, gt, lt } => {
            let lower = match gt {
                Some(v) => "{"@ + int_str(v as int),
                None => match gte {
                    Some(v) => "["@ + int_str(v as int),
                    None => "[*"@,
                },
            };
            let upper = match lt {
                Some(v) => int_str(v as int) + "}"@,
                None => match lte {
                    Some(v) => int_str(v as int) + "]"@,
                    None => "*]"@,
                },
            };
            escaped_text(field@) + ":"@ + lower + " TO "@ + upper
        },
        Query::Regex { field, pattern } => escaped_text(field@) + ":/"@ + regex_text(pattern@)
            + "/"@,
        Query::Boolean { must, must_not, should } => "("@ + clauses_text(must@, "+"@, 0)
            + clauses_text(must_not@, "-"@, 0) + clauses_text(should@, ""@, 0) + ")"@,
        Query::Raw { raw } => raw@,
    }
}

/// The clauses of a boolean group from position `i` on, each preceded by
/// a space and its occurrence mark.
pub open spec fn clauses_text(qs: Seq<Query>, pre: Seq<char>, i: int) -> Seq<char>
    decreases qs, 0int, qs.len() - i,
{
    if i < 0 || i >= qs.len() {
        Seq::empty()
    } else {
        " "@ + pre + query_text(qs[i]) + clauses_text(qs, pre, i + 1)
    }
}

/// The words of a phrase, space-separated.
pub open spec fn terms_text(ts: Seq<String>, i: int) -> Seq<char>
    decreases ts.len() - i,
{
    if i < 0 || i >= ts.len() {
        Seq::empty()
    } else if i == ts.len() - 1 {
        quoted_text(ts[i]@)
    } else {
        quoted_text(ts[i]@) + " "@ + terms_text(ts, i + 1)
    }
}

fn append_terms(ts: &Vec<String>, out: &mut String)
    ensures
        final(out)@ == old(out)@ + terms_text(ts@, 0),
{
    let ghost out0 = old(out)@;
    let n = ts.len();
    let mut i: usize = 0;
    proof {
        assert(out0 + terms_text(ts@, 0) =~= out0 + terms_text(ts@, 0));
    }
    while i < n
        invariant
            n == ts@.len(),
            0 <= i <= n,
            out@ + terms_text(ts@, i as int) == out0 + terms_text(ts@, 0),
        decreases n - i,
    {
        let ghost before = out@;
        out.append(escape_quoted(ts[i].as_str()).as_str());
        if i + 1 < n {
            out.append(" ");
            proof {
                assert(out@ + terms_text(ts@, i as int + 1) =~= before + terms_text(
                    ts@,
                    i as int,
                ));
            }
        } else {
            proof {
                assert(terms_text(ts@, i as int + 1) =~= Seq::<char>::empty());
                assert(out@ + terms_text(ts@, i as int + 1) =~= before + terms_text(
                    ts@,
                    i as int,
                ));
            }
        }
        i += 1;
    }
    proof {
        assert(terms_text(ts@, n as int) =~= Seq::<char>::empty());
        assert(out@ =~= out@ + terms_text(ts@, n as int));
    }
}

/// Renders the clauses of one occurrence class of a boolean group,
/// each preceded by a space and the occurrence mark.
fn render_clauses(qs: &Vec<Query>, pre: &str, out: &mut String) -> (r: Result<(), Error>)
    ensures
        r is Ok <==> all_renderable(qs@, 0),
        r is Ok ==> final(out)@ == old(out)@ + clauses_text(qs@, pre@, 0),
        r is Err ==> r->Err_0.kind == ErrorKind::QueryParse,
    decreases qs@, 1int, 0int,
{
    let ghost out0 = old(out)@;
    let n = qs.len();
    let mut i: usize = 0;
    while i < n
        invariant
            n == qs@.len(),
            0 <= i <= n,
            out@ + clauses_text(qs@, pre@, i as int) == out0 + clauses_text(qs@, pre@, 0),
            all_renderable(qs@, 0) <==> all_renderable(qs@, i as int),
        decreases n - i,
    {
        let ghost before = out@;
        match render_query(&qs[i]) {
            Ok(sub) => {
                out.append(" ");
                out.append(pre);
                out.append(sub.as_str());
                proof {
                    assert(out@ + clauses_text(qs@, pre@, i as int + 1) =~= before
                        + clauses_text(qs@, pre@, i as int));
                }
            },
            Err(e) => {
                proof {
                    assert(!renderable(qs@[i as int]));
                    assert(!all_renderable(qs@, i as int));
                }
                return Err(e);
            },
        }
        i += 1;
    }
    proof {
        assert(clauses_text(qs@, pre@, n as int) =~= Seq::<char>::empty());
        assert(out@ =~= out@ + clauses_text(qs@, pre@, n as int));
        assert(all_renderable(qs@, n as int));
    }
    Ok(())
}

/// Renders a query tree in the engine's text query language; the written
/// form is exactly `query_text`. Fuzzy terms have no written form there
/// and are rejected as a parse error.
pub fn render_query(q: &Query) -> (r: Result<String, Error>)
    ensures
        r is Ok <==> renderable(*q),
        r is Ok ==> r->Ok_0@ == query_text(*q),
        r is Err ==> r->Err_0.kind == ErrorKind::QueryParse,
    decreases *q, 2int, 0int,
{
    match q {
        Query::All => {
            Ok(String::from_str("*"))
        },
        Query::Exact(kv) => {
            let mut s = escape_text(kv.field.as_str());
            s.append(":");
            s.append(escape_text(kv.value.as_str()).as_str());
            proof {
                assert(s@ =~= query_text(*q));
            }
            Ok(s)
        },
        Query::Phrase { field, terms } => {
            let mut s = escape_text(field.as_str());
            s.append(":\"");
            append_terms(terms, &mut s);
            s.append("\"");
            proof {
                assert(s@ =~= query_text(*q));
            }
            Ok(s)
        },
        Query::Fuzzy { .. } => {
            Err(
                Error::new(
                    ErrorKind::QueryParse,
                    String::from_str("fuzzy terms have no text query form"),
                ),
            )
        },
        Query::Range { field, gte, lte, gt, lt } => {
            let mut s = escape_text(field.as_str());
            s.append(":");
            match gt {
                Some(v) => {
                    s.append("{");
                    s.append(i64_string(*v).as_str());
                },
                None => {
                    match gte {
                        Some(v) => {
                            s.append("[");
                            s.append(i64_string(*v).as_str());
                        },
                        None => {
                            s.append("[*");
                        },
                    }
                },
            }
            s.append(" TO ");
            match lt {
                Some(v) => {
                    s.append(i64_string(*v).as_str());
                    s.append("}");
                },
                None => {
                    match lte {
                        Some(v) => {
                            s.append(i64_string(*v).as_str());
                            s.append("]");
                        },
                        None => {
                            s.append("*]");
                        },
                    }
                },
            }
            proof {
                assert(s@ =~= query_text(*q));
            }
            Ok(s)
        },
        Query::Regex { field, pattern } => {
            let mut s = escape_text(field.as_str());
            s.append(":/");
            s.append(escape_regex(pattern.as_str()).as_str());
            s.append("/");
            proof {
                assert(s@ =~= query_text(*q));
            }
            Ok(s)
        },
        Query::Boolean { must, must_not, should } => {
            let mut s = String::from_str("(");
            match render_clauses(must, "+", &mut s) {
                Ok(_) => {},
                Err(e) => {
                    return Err(e);
                },
            }
            match render_clauses(must_not, "-", &mut s) {
                Ok(_) => {},
                Err(e) => {
                    return Err(e);
                },
            }
            match render_clauses(should, "", &mut s) {
                Ok(_) => {},
                Err(e) => {
                    return Err(e);
                },
            }
            s.append(")");
            proof {
                assert(s@ =~= query_text(*q));
            }
            Ok(s)
        },
        Query::Raw { raw } => {
            Ok(raw.clone())
        },
    }
}

} // verus!
