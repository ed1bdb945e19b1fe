//! Facts about sequences of rows that are told apart by a key.

use vstd::prelude::*;

verus! {

/// Whether no two rows have one key.
pub open spec fn distinct_by<A>(rows: Seq<A>, key: spec_fn(A) -> Seq<char>) -> bool {
    forall|i: int, j: int|
        0 <= i < j < rows.len() ==> key(#[trigger] rows[i]) != key(#[trigger] rows[j])
}

/// Filtering a sequence that ends in `x` filters what stands before `x`, and
/// keeps `x` or not.
pub proof fn lemma_filter_push<A>(s: Seq<A>, x: A, p: spec_fn(A) -> bool)
    ensures
        s.push(x).filter(p) == if p(x) {
            s.filter(p).push(x)
        } else {
            s.filter(p)
        },
{
    reveal(Seq::filter);
    assert(s.push(x).drop_last() =~= s);
}

/// Filtering keeps a sequence whose every row passes.
pub proof fn lemma_filter_all<A>(s: Seq<A>, p: spec_fn(A) -> bool)
    requires
        forall|i: int| 0 <= i < s.len() ==> p(#[trigger] s[i]),
    ensures
        s.filter(p) == s,
    decreases s.len(),
{
    reveal(Seq::filter);
    if s.len() > 0 {
        lemma_filter_all(s.drop_last(), p);
        assert(s.drop_last().push(s.last()) =~= s);
    }
}

/// What passes a filter was there before, and passes.
pub proof fn lemma_filter_members<A>(s: Seq<A>, p: spec_fn(A) -> bool)
    ensures
        forall|i: int|
            0 <= i < s.filter(p).len() ==> s.contains(#[trigger] s.filter(p)[i]) && p(
                s.filter(p)[i],
            ),
        forall|i: int| 0 <= i < s.len() && p(s[i]) ==> s.filter(p).contains(#[trigger] s[i]),
    decreases s.len(),
{
    reveal(Seq::filter);
    if s.len() > 0 {
        let r = s.drop_last();
        lemma_filter_members(r, p);
        assert forall|i: int| 0 <= i < s.filter(p).len() implies s.contains(
            #[trigger] s.filter(p)[i],
        ) && p(s.filter(p)[i]) by {
            if i < r.filter(p).len() {
                let x = r.filter(p)[i];
                assert(r.contains(x));
                let k = choose|k: int| 0 <= k < r.len() && r[k] == x;
                assert(s[k] == x);
            } else {
                assert(s.filter(p)[i] == s[s.len() - 1]);
            }
        }
        assert forall|i: int| 0 <= i < s.len() && p(s[i]) implies s.filter(p).contains(
            #[trigger] s[i],
        ) by {
            if i < r.len() {
                assert(r[i] == s[i]);
                assert(r.filter(p).contains(r[i]));
                let k = choose|k: int| 0 <= k < r.filter(p).len() && r.filter(p)[k] == r[i];
                assert(s.filter(p)[k] == s[i]);
            } else {
                assert(s.filter(p)[s.filter(p).len() - 1] == s[i]);
            }
        }
    }
}

/// Filtering leaves the keys distinct.
pub proof fn lemma_filter_distinct<A>(
    s: Seq<A>,
    key: spec_fn(A) -> Seq<char>,
    p: spec_fn(A) -> bool,
)
    requires
        distinct_by(s, key),
    ensures
        distinct_by(s.filter(p), key),
    decreases s.len(),
{
    reveal(Seq::filter);
    if s.len() > 0 {
        let r = s.drop_last();
        assert forall|i: int, j: int| 0 <= i < j < r.len() implies key(#[trigger] r[i]) != key(
            #[trigger] r[j],
        ) by {
            assert(r[i] == s[i] && r[j] == s[j]);
        }
        lemma_filter_distinct(r, key, p);
        lemma_filter_members(r, p);
        let f = s.filter(p);
        assert forall|i: int, j: int| 0 <= i < j < f.len() implies key(#[trigger] f[i]) != key(
            #[trigger] f[j],
        ) by {
            if j < r.filter(p).len() {
                assert(f[i] == r.filter(p)[i] && f[j] == r.filter(p)[j]);
            } else {
                let x = r.filter(p)[i];
                assert(r.contains(x));
                let k = choose|k: int| 0 <= k < r.len() && r[k] == x;
                assert(s[k] == x);
                assert(f[j] == s[s.len() - 1]);
            }
        }
    }
}

/// Among rows with distinct keys, a filter that only the key of the row at
/// `i` fails removes that row and nothing else.
pub proof fn lemma_filter_removes_one<A>(
    s: Seq<A>,
    key: spec_fn(A) -> Seq<char>,
    p: spec_fn(A) -> bool,
    i: int,
)
    requires
        distinct_by(s, key),
        0 <= i < s.len(),
        forall|x: A| #[trigger] p(x) == (key(x) != key(s[i])),
    ensures
        s.filter(p) == s.remove(i),
    decreases s.len(),
{
    let r = s.drop_last();
    let x = s.last();
    assert(r.push(x) =~= s);
    lemma_filter_push(r, x, p);
    if i == s.len() - 1 {
        assert forall|k: int| 0 <= k < r.len() implies p(#[trigger] r[k]) by {
            assert(r[k] == s[k]);
            assert(key(s[k]) != key(s[i]));
        }
        lemma_filter_all(r, p);
        assert(s.remove(i) =~= r);
    } else {
        assert(key(s[i]) != key(s[s.len() - 1]));
        assert forall|a: int, b: int| 0 <= a < b < r.len() implies key(#[trigger] r[a]) != key(
            #[trigger] r[b],
        ) by {
            assert(r[a] == s[a] && r[b] == s[b]);
        }
        assert(r[i] == s[i]);
        lemma_filter_removes_one(r, key, p, i);
        assert(r.remove(i).push(x) =~= s.remove(i));
    }
}

/// Rows with distinct keys, of which none has the key of `x`, stay so with
/// `x` behind them.
pub proof fn lemma_push_distinct<A>(s: Seq<A>, key: spec_fn(A) -> Seq<char>, x: A)
    requires
        distinct_by(s, key),
        forall|i: int| 0 <= i < s.len() ==> key(#[trigger] s[i]) != key(x),
    ensures
        distinct_by(s.push(x), key),
{
    let t = s.push(x);
    assert forall|i: int, j: int| 0 <= i < j < t.len() implies key(#[trigger] t[i]) != key(
        #[trigger] t[j],
    ) by {
        assert(t[i] == s[i]);
        if j < s.len() {
            assert(t[j] == s[j]);
        }
    }
}

/// Where a page of a listing of `len` rows begins: with a limit, at the row
/// at `offset` (at the first, without an offset); without a limit, at the
/// first row, whatever the offset.
pub open spec fn page_start(len: nat, limit: Option<u32>, offset: Option<u32>) -> int {
    match (limit, offset) {
        (Some(_), Some(o)) => if o <= len {
            o as int
        } else {
            len as int
        },
        _ => 0,
    }
}

/// Where that page ends: `limit` rows on, or at the end of the listing.
pub open spec fn page_end(len: nat, limit: Option<u32>, offset: Option<u32>) -> int {
    match limit {
        Some(l) => if page_start(len, limit, offset) + l <= len {
            page_start(len, limit, offset) + l
        } else {
            len as int
        },
        None => len as int,
    }
}

/// One page of a listing.
pub open spec fn page<A>(all: Seq<A>, limit: Option<u32>, offset: Option<u32>) -> Seq<A> {
    all.subrange(page_start(all.len(), limit, offset), page_end(all.len(), limit, offset))
}

/// The rows at the given positions.
pub open spec fn picked<A>(rows: Seq<A>, at: Seq<usize>) -> Seq<A> {
    Seq::new(at.len(), |k: int| rows[at[k] as int])
}

/// The bounds of the page of a listing of `len` rows.
pub fn page_bounds(len: usize, limit: Option<u32>, offset: Option<u32>) -> (r: (usize, usize))
    ensures
        r.0 == page_start(len as nat, limit, offset),
        r.1 == page_end(len as nat, limit, offset),
        r.0 <= r.1 <= len,
{
    match limit {
        None => (0, len),
        Some(limit) => {
            let start: usize = match offset {
                Some(o) => if o as usize <= len {
                    o as usize
                } else {
                    len
                },
                None => 0,
            };
            let end: usize = if limit as usize <= len - start {
                start + limit as usize
            } else {
                len
            };
            (start, end)
        },
    }
}

} // verus!
