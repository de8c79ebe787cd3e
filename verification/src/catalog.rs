use vstd::prelude::*;
use vstd::string::StrSliceExecFns;
use crate::error::Error;
use crate::error::ErrorKind;
use crate::error::unknown_index_error;
use crate::handle::IndexHandle;
use crate::query::Search;
use crate::results::SearchResults;

verus! {

/// Character-by-character equality of two string slices.
fn str_eq(a: &str, b: &str) -> (r: bool)
    ensures
        r == (a@ == b@),
{
    let na = a.unicode_len();
    let nb = b.unicode_len();
    if na != nb {
        return false;
    }
    let mut i: usize = 0;
    while i < na
        invariant
            na == a@.len(),
            nb == b@.len(),
            na == nb,
            0 <= i <= na,
            forall|k: int| 0 <= k < i ==> a@[k] == b@[k],
        decreases na - i,
    {
        if a.get_char(i) != b.get_char(i) {
            return false;
        }
        i += 1;
    }
    proof {
        assert(a@ =~= b@);
    }
    true
}

/// No two entries share a name.
pub open spec fn distinct_names(s: Seq<Seq<char>>) -> bool {
    forall|i: int, j: int| 0 <= i < j < s.len() ==> s[i] != s[j]
}

/// How often a name occurs in a listing.
pub open spec fn count_matches(s: Seq<Seq<char>>, x: Seq<char>) -> int
    decreases s.len(),
{
    if s.len() == 0 {
        0
    } else {
        count_matches(s.drop_last(), x) + if s.last() == x {
            1int
        } else {
            0int
        }
    }
}

pub proof fn lemma_count_zero_iff_absent(s: Seq<Seq<char>>, x: Seq<char>)
    ensures
        count_matches(s, x) == 0 <==> !s.contains(x),
        count_matches(s, x) >= 0,
    decreases s.len(),
{
    if s.len() > 0 {
        lemma_count_zero_iff_absent(s.drop_last(), x);
        assert(s.contains(x) <==> (s.last() == x || s.drop_last().contains(x))) by {
            if s.contains(x) {
                let i = choose|i: int| 0 <= i < s.len() && s[i] == x;
                if i < s.len() - 1 {
                    assert(s.drop_last()[i] == x);
                }
            }
            if s.drop_last().contains(x) {
                let i = choose|i: int| 0 <= i < s.drop_last().len() && s.drop_last()[i] == x;
                assert(s[i] == x);
            }
        }
    }
}

/// The in-process registry of the cluster's view: the local index
/// handles, and the remote peers known to host each index name. Reads
/// may run in parallel under a readers-writer lease taken by the caller;
/// membership writes are exclusive.
pub struct IndexCatalog {
    base_path: String,
    local: Vec<(String, IndexHandle)>,
    remote: Vec<(String, Vec<String>)>,
}

impl IndexCatalog {
    /// The names of the local indexes, in registration order.
    pub closed spec fn local_names(&self) -> Seq<Seq<char>> {
        self.local@.map_values(|p: (String, IndexHandle)| p.0@)
    }

    /// The names with known remote hosts.
    pub closed spec fn remote_names(&self) -> Seq<Seq<char>> {
        self.remote@.map_values(|p: (String, Vec<String>)| p.0@)
    }

    pub closed spec fn base_path_view(&self) -> Seq<char> {
        self.base_path@
    }

    pub open spec fn has_local(&self, name: Seq<char>) -> bool {
        self.local_names().contains(name)
    }

    pub open spec fn has_remote(&self, name: Seq<char>) -> bool {
        self.remote_names().contains(name)
    }

    /// The peer addresses recorded for a name, empty when none are.
    pub closed spec fn peers_for(&self, name: Seq<char>) -> Seq<Seq<char>> {
        if self.has_remote(name) {
            let i = choose|i: int|
                0 <= i < self.remote@.len() && self.remote@[i].0@ == name;
            self.remote@[i].1@.map_values(|u: String| u@)
        } else {
            Seq::empty()
        }
    }

    /// Each name is registered at most once, locally and remotely.
    pub open spec fn wf(&self) -> bool {
        &&& distinct_names(self.local_names())
        &&& distinct_names(self.remote_names())
    }

    pub fn new(base_path: String) -> (r: IndexCatalog)
        ensures
            r.wf(),
            r.local_names() == Seq::<Seq<char>>::empty(),
            r.remote_names() == Seq::<Seq<char>>::empty(),
            r.base_path_view() == base_path@,
    {
        let r = IndexCatalog { base_path, local: Vec::new(), remote: Vec::new() };
        proof {
            assert(r.local_names() =~= Seq::<Seq<char>>::empty());
            assert(r.remote_names() =~= Seq::<Seq<char>>::empty());
        }
        r
    }

    pub fn base_path(&self) -> (r: &str)
        ensures
            r@ == self.base_path_view(),
    {
        self.base_path.as_str()
    }

    fn find_local(&self, name: &str) -> (r: Option<usize>)
        ensures
            r is Some <==> self.has_local(name@),
            r is Some ==> r->0 < self.local@.len() && self.local@[r->0 as int].0@ == name@,
    {
        let n = self.local.len();
        let mut i: usize = 0;
        while i < n
            invariant
                n == self.local@.len(),
                0 <= i <= n,
                forall|k: int| 0 <= k < i ==> #[trigger] self.local@[k].0@ != name@,
            decreases n - i,
        {
            if str_eq(self.local[i].0.as_str(), name) {
                proof {
                    assert(self.local_names()[i as int] == name@);
                }
                return Some(i);
            }
            i += 1;
        }
        proof {
            assert(!self.has_local(name@)) by {
                if self.local_names().contains(name@) {
                    let j = choose|j: int|
                        0 <= j < self.local_names().len() && self.local_names()[j] == name@;
                    assert(self.local@[j].0@ == name@);
                }
            }
        }
        None
    }

    fn find_remote(&self, name: &str) -> (r: Option<usize>)
        ensures
            r is Some <==> self.has_remote(name@),
            r is Some ==> r->0 < self.remote@.len() && self.remote@[r->0 as int].0@ == name@,
    {
        let n = self.remote.len();
        let mut i: usize = 0;
        while i < n
            invariant
                n == self.remote@.len(),
                0 <= i <= n,
                forall|k: int| 0 <= k < i ==> #[trigger] self.remote@[k].0@ != name@,
            decreases n - i,
        {
            if str_eq(self.remote[i].0.as_str(), name) {
                proof {
                    assert(self.remote_names()[i as int] == name@);
                }
                return Some(i);
            }
            i += 1;
        }
        proof {
            assert(!self.has_remote(name@)) by {
                if self.remote_names().contains(name@) {
                    let j = choose|j: int|
                        0 <= j < self.remote_names().len() && self.remote_names()[j] == name@;
                    assert(self.remote@[j].0@ == name@);
                }
            }
        }
        None
    }

    /// True when the name is known anywhere in the cluster: local, or
    /// hosted by at least one known peer.
    pub fn index_exists(&self, name: &str) -> (r: bool)
        ensures
            r == (self.has_local(name@) || self.has_remote(name@)),
    {
        match self.find_local(name) {
            Some(_) => true,
            None => {
                match self.find_remote(name) {
                    Some(_) => true,
                    None => false,
                }
            },
        }
    }

    pub fn remote_exists(&self, name: &str) -> (r: bool)
        ensures
            r == self.has_remote(name@),
    {
        match self.find_remote(name) {
            Some(_) => true,
            None => false,
        }
    }

    /// The local handle for a name; unknown names are a not-found.
    pub fn get_index(&self, name: &str) -> (r: Result<&IndexHandle, Error>)
        ensures
            r is Ok <==> self.has_local(name@),
            r is Err ==> r->Err_0.kind == ErrorKind::NotFound,
            r is Err ==> r->Err_0.message@ == crate::error::spec_unknown_index_message(name@),
    {
        match self.find_local(name) {
            Some(i) => Ok(&self.local[i].1),
            None => Err(unknown_index_error(name)),
        }
    }

    /// Registers a handle under a name; a taken name is refused and the
    /// catalog is unchanged.
    pub fn add_index(&mut self, name: String, handle: IndexHandle) -> (r: Result<(), Error>)
        requires
            old(self).wf(),
        ensures
            final(self).wf(),
            r is Ok <==> !old(self).has_local(name@),
            r is Ok ==> final(self).local_names() == old(self).local_names().push(name@),
            r is Err ==> r->Err_0.kind == ErrorKind::Exists && *final(self) == *old(self),
            final(self).remote_names() == old(self).remote_names(),
            final(self).base_path_view() == old(self).base_path_view(),
    {
        match self.find_local(name.as_str()) {
            Some(_) => {
                let mut m = name;
                m.append(" already exists");
                Err(Error::new(ErrorKind::Exists, m))
            },
            None => {
                let ghost pre = self.local@;
                let ghost nm = name@;
                self.local.push((name, handle));
                proof {
                    assert(self.local_names() =~= pre.map_values(
                        |p: (String, IndexHandle)| p.0@,
                    ).push(nm));
                    assert forall|i: int, j: int|
                        0 <= i < j < self.local_names().len() implies self.local_names()[i]
                        != self.local_names()[j] by {
                        if j == self.local_names().len() - 1 {
                            assert(old(self).local_names()[i] != nm);
                        }
                    }
                }
                Ok(())
            },
        }
    }

    /// Records the peers that host a name; a name already recorded is
    /// refused.
    pub fn add_remote_index(&mut self, name: String, peers: Vec<String>) -> (r: Result<(), Error>)
        requires
            old(self).wf(),
        ensures
            final(self).wf(),
            r is Ok <==> !old(self).has_remote(name@),
            r is Ok ==> final(self).remote_names() == old(self).remote_names().push(name@),
            r is Err ==> r->Err_0.kind == ErrorKind::Exists && *final(self) == *old(self),
            final(self).local_names() == old(self).local_names(),
            final(self).base_path_view() == old(self).base_path_view(),
    {
        match self.find_remote(name.as_str()) {
            Some(_) => {
                let mut m = name;
                m.append(" already exists");
                Err(Error::new(ErrorKind::Exists, m))
            },
            None => {
                let ghost pre = self.remote@;
                let ghost nm = name@;
                self.remote.push((name, peers));
                proof {
                    assert(self.remote_names() =~= pre.map_values(
                        |p: (String, Vec<String>)| p.0@,
                    ).push(nm));
                    assert forall|i: int, j: int|
                        0 <= i < j < self.remote_names().len() implies self.remote_names()[i]
                        != self.remote_names()[j] by {
                        if j == self.remote_names().len() - 1 {
                            assert(old(self).remote_names()[i] != nm);
                        }
                    }
                }
                Ok(())
            },
        }
    }

    /// Materializes a new on-disk index under `base_path/name` and hands
    /// back its handle; the catalog itself is not touched.
    pub fn create_from_managed(base_path: &str, name: &str, schema_json: &str) -> (r: Result<
        IndexHandle,
        Error,
    >)
        ensures
            r is Ok ==> r->Ok_0.name_view() == name@,
            r is Err ==> (r->Err_0.kind == ErrorKind::QueryParse || r->Err_0.kind
                == ErrorKind::Engine),
    {
        IndexHandle::create_managed(base_path, name.to_owned(), schema_json)
    }

    /// The names of the local indexes.
    pub fn list(&self) -> (r: Vec<String>)
        ensures
            r@.map_values(|s: String| s@) == self.local_names(),
    {
        let n = self.local.len();
        let mut out: Vec<String> = Vec::new();
        let mut i: usize = 0;
        while i < n
            invariant
                n == self.local@.len(),
                0 <= i <= n,
                out@.len() == i,
                forall|k: int| 0 <= k < i ==> #[trigger] out@[k]@ == self.local@[k].0@,
            decreases n - i,
        {
            out.push(self.local[i].0.clone());
            i += 1;
        }
        proof {
            assert(out@.map_values(|s: String| s@) =~= self.local_names());
        }
        out
    }

    /// The recorded peer addresses for a name, empty when none are.
    pub fn remote_peers_for(&self, name: &str) -> (r: Vec<String>)
        requires
            self.wf(),
        ensures
            r@.map_values(|s: String| s@) == self.peers_for(name@),
    {
        match self.find_remote(name) {
            Some(i) => {
                let peers = &self.remote[i].1;
                let n = peers.len();
                let mut out: Vec<String> = Vec::new();
                let mut k: usize = 0;
                while k < n
                    invariant
                        n == peers@.len(),
                        0 <= k <= n,
                        out@.len() == k,
                        forall|m: int| 0 <= m < k ==> #[trigger] out@[m]@ == peers@[m]@,
                    decreases n - k,
                {
                    out.push(peers[k].clone());
                    k += 1;
                }
                proof {
                    let j = choose|j: int|
                        0 <= j < self.remote@.len() && self.remote@[j].0@ == name@;
                    assert(self.remote_names()[i as int] == name@);
                    assert(self.remote_names()[j] == name@);
                    assert(j == i as int);
                    assert(out@.map_values(|s: String| s@) =~= self.peers_for(name@));
                }
                out
            },
            None => {
                let out: Vec<String> = Vec::new();
                proof {
                    assert(out@.map_values(|s: String| s@) =~= Seq::<Seq<char>>::empty());
                }
                out
            },
        }
    }

    /// Searches the local handle for a name against the given request.
    pub fn search_local_index(&self, name: &str, search: Search) -> (r: Result<
        SearchResults,
        Error,
    >)
        ensures
            r is Ok ==> self.has_local(name@),
            r is Ok ==> r->Ok_0.wf() && r->Ok_0.docs@.len() <= search.limit && r->Ok_0.hits
                == r->Ok_0.docs@.len(),
            !self.has_local(name@) ==> r is Err && r->Err_0.kind == ErrorKind::NotFound
                && r->Err_0.message@ == crate::error::spec_unknown_index_message(name@),
            self.has_local(name@) ==> (r is Err ==> r->Err_0.kind != ErrorKind::NotFound),
            r is Err ==> (r->Err_0.kind == ErrorKind::NotFound || r->Err_0.kind
                == ErrorKind::QueryParse || r->Err_0.kind == ErrorKind::Engine),
    {
        match self.get_index(name) {
            Ok(handle) => handle.search_index(search),
            Err(e) => Err(e),
        }
    }

    /// Commits the pending mutations of the named local index.
    pub fn commit_index(&mut self, name: &str) -> (r: Result<(), Error>)
        requires
            old(self).wf(),
        ensures
            final(self).wf(),
            r is Err ==> (r->Err_0.kind == ErrorKind::NotFound || r->Err_0.kind
                == ErrorKind::Engine),
            !old(self).has_local(name@) <==> (r is Err && r->Err_0.kind == ErrorKind::NotFound),
            final(self).local_names() == old(self).local_names(),
            final(self).remote_names() == old(self).remote_names(),
            final(self).base_path_view() == old(self).base_path_view(),
    {
        match self.find_local(name) {
            Some(i) => {
                let ghost pre = self.local@;
                let pair = self.local.remove(i);
                let nm = pair.0;
                let mut h = pair.1;
                let res = h.commit();
                self.local.insert(i, (nm, h));
                proof {
                    assert(self.local_names() =~= pre.map_values(
                        |p: (String, IndexHandle)| p.0@,
                    ));
                }
                res
            },
            None => Err(unknown_index_error(name)),
        }
    }
}

/// Law: once an index is placed under a name, a local lookup of the name
/// succeeds, and the listing contains the name exactly once.
pub proof fn lemma_place_index_visible(
    before: IndexCatalog,
    after: IndexCatalog,
    name: Seq<char>,
)
    requires
        before.wf(),
        !before.has_local(name),
        after.local_names() == before.local_names().push(name),
    ensures
        after.has_local(name),
        count_matches(after.local_names(), name) == 1,
{
    assert(after.local_names()[after.local_names().len() - 1] == name);
    lemma_count_zero_iff_absent(before.local_names(), name);
    assert(after.local_names().drop_last() =~= before.local_names());
    assert(count_matches(after.local_names(), name) == count_matches(
        before.local_names(),
        name,
    ) + 1);
}

} // verus!
