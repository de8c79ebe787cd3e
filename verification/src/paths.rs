use vstd::prelude::*;
use vstd::string::StrSliceExecFns;

verus! {

/// The length of the leading run of non-separator characters.
pub open spec fn run_len(s: Seq<char>) -> int
    decreases s.len(),
{
    if s.len() == 0 || s[0] == '/' {
        0
    } else {
        1 + run_len(s.drop_first())
    }
}

pub proof fn lemma_run_len_bounds(s: Seq<char>)
    ensures
        0 <= run_len(s) <= s.len(),
        s.len() > 0 && s[0] != '/' ==> run_len(s) >= 1,
    decreases s.len(),
{
    if s.len() > 0 && s[0] != '/' {
        lemma_run_len_bounds(s.drop_first());
    }
}

/// The run length is exactly the position of the first separator.
pub proof fn lemma_run_len_exact(s: Seq<char>, k: int)
    requires
        0 <= k <= s.len(),
        forall|m: int| 0 <= m < k ==> s[m] != '/',
        k == s.len() || s[k] == '/',
    ensures
        run_len(s) == k,
    decreases k,
{
    if k == 0 {
    } else {
        assert(s[0] != '/');
        assert(forall|m: int| 0 <= m < k - 1 ==> #[trigger] s.drop_first()[m] == s[m + 1]);
        lemma_run_len_exact(s.drop_first(), k - 1);
    }
}

/// The non-empty segments of a path, in order: maximal runs between `/`
/// separators, with empty runs dropped.
pub open spec fn path_segments(s: Seq<char>) -> Seq<Seq<char>>
    decreases s.len(),
    via path_segments_decreases
{
    if s.len() == 0 {
        Seq::empty()
    } else if s[0] == '/' {
        path_segments(s.drop_first())
    } else {
        seq![s.take(run_len(s))] + path_segments(s.skip(run_len(s)))
    }
}

#[via_fn]
proof fn path_segments_decreases(s: Seq<char>) {
    lemma_run_len_bounds(s);
}

/// The views of collected segments.
pub open spec fn seg_views(q: Seq<String>) -> Seq<Seq<char>> {
    q.map_values(|x: String| x@)
}

/// Up to the first three path components: resource, verb, sub-resource.
pub struct Paths(pub Option<String>, pub Option<String>, pub Option<String>);

pub open spec fn opt_seg(o: Option<String>) -> Option<Seq<char>> {
    match o {
        Some(s) => Some(s@),
        None => None,
    }
}

/// Splits a request path on `/`, drops empty segments, and returns the
/// first three segments in order; segments past the third are ignored,
/// and an empty path yields three empty components.
pub fn parse_path(path: &str) -> (r: Paths)
    ensures
        opt_seg(r.0) == (if path_segments(path@).len() >= 1 {
            Some(path_segments(path@)[0])
        } else {
            None::<Seq<char>>
        }),
        opt_seg(r.1) == (if path_segments(path@).len() >= 2 {
            Some(path_segments(path@)[1])
        } else {
            None::<Seq<char>>
        }),
        opt_seg(r.2) == (if path_segments(path@).len() >= 3 {
            Some(path_segments(path@)[2])
        } else {
            None::<Seq<char>>
        }),
{
    let ghost s = path@;
    let n = path.unicode_len();
    let mut segs: Vec<String> = Vec::new();
    let mut i: usize = 0;
    proof {
        assert(seg_views(segs@) =~= Seq::<Seq<char>>::empty());
        assert(s.skip(0) =~= s);
        assert(seg_views(segs@) + path_segments(s.skip(0)) =~= path_segments(s));
    }
    while i < n
        invariant
            n == s.len(),
            s == path@,
            0 <= i <= n,
            seg_views(segs@) + path_segments(s.skip(i as int)) == path_segments(s),
        decreases n - i,
    {
        if path.get_char(i) == '/' {
            proof {
                assert(s.skip(i as int).drop_first() =~= s.skip(i as int + 1));
                assert(seg_views(segs@) + path_segments(s.skip(i as int + 1)) =~= path_segments(
                    s,
                ));
            }
            i += 1;
        } else {
            let start = i;
            let mut j = i + 1;
            while j < n && path.get_char(j) != '/'
                invariant
                    n == s.len(),
                    s == path@,
                    0 <= start < j <= n,
                    forall|m: int| start <= m < j ==> s[m] != '/',
                decreases n - j,
            {
                j += 1;
            }
            let piece = path.substring_char(start, j).to_owned();
            let ghost pre = segs@;
            segs.push(piece);
            proof {
                let t = s.skip(start as int);
                assert(forall|m: int| 0 <= m < j - start ==> #[trigger] t[m] == s[m + start]);
                lemma_run_len_exact(t, j - start);
                assert(t[0] != '/');
                assert(path_segments(t) == seq![t.take(j - start)] + path_segments(
                    t.skip(j - start),
                ));
                assert(t.take(j - start) =~= s.subrange(start as int, j as int));
                assert(t.skip(j - start) =~= s.skip(j as int));
                assert(piece@ == s.subrange(start as int, j as int));
                assert(seg_views(segs@) =~= seg_views(pre).push(piece@));
                assert(seg_views(segs@) + path_segments(s.skip(j as int)) =~= seg_views(pre)
                    + path_segments(t));
            }
            i = j;
        }
    }
    proof {
        assert(s.skip(n as int) =~= Seq::<char>::empty());
        assert(path_segments(s.skip(n as int)) =~= Seq::<Seq<char>>::empty());
        assert(seg_views(segs@) =~= path_segments(s));
    }
    let ghost collected = segs@;
    let third = if segs.len() >= 3 {
        Some(segs.remove(2))
    } else {
        None
    };
    let second = if segs.len() >= 2 {
        Some(segs.remove(1))
    } else {
        None
    };
    let first = if segs.len() >= 1 {
        Some(segs.remove(0))
    } else {
        None
    };
    proof {
        assert(seg_views(collected).len() == collected.len());
        assert(collected.len() >= 1 ==> collected[0]@ == path_segments(s)[0]);
        assert(collected.len() >= 2 ==> collected[1]@ == path_segments(s)[1]);
        assert(collected.len() >= 3 ==> collected[2]@ == path_segments(s)[2]);
    }
    Paths(first, second, third)
}

} // verus!
