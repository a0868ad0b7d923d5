use vstd::prelude::*;

use crate::content::{below, same, Content};

verus! {

/// Where a search ended: at an element equal to the target, or, when none was
/// met, at the position where the narrowing stopped.
#[derive(Clone, Copy, Debug, PartialEq, Eq, Structural)]
pub enum SearchResult {
    Found(usize),
    NotFound(usize),
}

/// The narrowing search over the half-open range `lo..hi` of `s`. It probes the
/// middle (the lower one of two), goes left when the target orders strictly
/// before it, right when it orders strictly after it, and stops at the first
/// element that orders neither way.
pub open spec fn search_between(t: Content, s: Seq<Content>, lo: int, hi: int) -> SearchResult
    decreases hi - lo,
{
    if lo >= hi {
        SearchResult::NotFound(lo as usize)
    } else {
        let mid = lo + (hi - lo - 1) / 2;
        if below(t, s[mid]) {
            search_between(t, s, lo, mid)
        } else if below(s[mid], t) {
            search_between(t, s, mid + 1, hi)
        } else {
            SearchResult::Found(mid as usize)
        }
    }
}

/// The outcome of searching `t` in the whole of `s`.
pub open spec fn search_spec(t: Content, s: Seq<Content>) -> SearchResult {
    search_between(t, s, 0, s.len() as int)
}

/// All elements are concrete and in ascending order.
pub open spec fn ascending(s: Seq<Content>) -> bool {
    &&& forall|i: int| 0 <= i < s.len() ==> (#[trigger] s[i]) is Int
    &&& forall|i: int, j: int|
        0 <= i <= j < s.len() ==> (#[trigger] s[i])->Int_0 <= (#[trigger] s[j])->Int_0
}

/// A found index is in range and holds an element equal to the target; a
/// position where the search stopped lies within the range searched.
pub(crate) proof fn lemma_between_bounds(t: Content, s: Seq<Content>, lo: int, hi: int)
    requires
        0 <= lo <= hi <= s.len() <= usize::MAX,
    ensures
        search_between(t, s, lo, hi) matches SearchResult::Found(i) ==> lo <= i < hi && same(
            s[i as int],
            t,
        ),
        search_between(t, s, lo, hi) matches SearchResult::NotFound(i) ==> lo <= i <= hi,
    decreases hi - lo,
{
    if lo < hi {
        let mid = lo + (hi - lo - 1) / 2;
        if below(t, s[mid]) {
            lemma_between_bounds(t, s, lo, mid);
        } else if below(s[mid], t) {
            lemma_between_bounds(t, s, mid + 1, hi);
        }
    }
}

/// On ascending input, where everything left of `lo` orders before the target
/// and everything from `hi` on orders after it, a failed search stops at the
/// sorted insertion position.
proof fn lemma_between_ascending(t: Content, s: Seq<Content>, lo: int, hi: int)
    requires
        ascending(s),
        0 <= lo <= hi <= s.len() <= usize::MAX,
        forall|k: int| 0 <= k < lo ==> below(#[trigger] s[k], t),
        forall|k: int| hi <= k < s.len() ==> below(t, #[trigger] s[k]),
    ensures
        search_between(t, s, lo, hi) matches SearchResult::NotFound(ins) ==> {
            &&& lo <= ins <= hi
            &&& forall|k: int| 0 <= k < ins ==> below(#[trigger] s[k], t)
            &&& forall|k: int| ins <= k < s.len() ==> below(t, #[trigger] s[k])
        },
    decreases hi - lo,
{
    if lo < hi {
        let mid = lo + (hi - lo - 1) / 2;
        if below(t, s[mid]) {
            assert forall|k: int| mid <= k < s.len() implies below(t, #[trigger] s[k]) by {
                if k < hi {
                    assert(s[mid]->Int_0 <= s[k]->Int_0);
                }
            }
            lemma_between_ascending(t, s, lo, mid);
        } else if below(s[mid], t) {
            assert forall|k: int| 0 <= k < mid + 1 implies below(#[trigger] s[k], t) by {
                if k >= lo {
                    assert(s[k]->Int_0 <= s[mid]->Int_0);
                }
            }
            lemma_between_ascending(t, s, mid + 1, hi);
        }
    }
}

/// On ascending input, a search finds an index exactly when the target equals
/// some element, and the index it finds holds such an element; when it finds
/// none, the position it reports is the sorted insertion position: everything
/// before it orders strictly before the target, everything from it on
/// strictly after.
pub proof fn lemma_search_ascending(t: Content, s: Seq<Content>)
    requires
        ascending(s),
        s.len() <= usize::MAX,
    ensures
        (exists|k: int| 0 <= k < s.len() && same(#[trigger] s[k], t)) <==> search_spec(
            t,
            s,
        ) is Found,
        search_spec(t, s) matches SearchResult::Found(i) ==> i < s.len() && same(s[i as int], t),
        search_spec(t, s) matches SearchResult::NotFound(ins) ==> {
            &&& ins <= s.len()
            &&& forall|k: int| 0 <= k < ins ==> below(#[trigger] s[k], t)
            &&& forall|k: int| ins <= k < s.len() ==> below(t, #[trigger] s[k])
        },
{
    lemma_between_bounds(t, s, 0, s.len() as int);
    lemma_between_ascending(t, s, 0, s.len() as int);
    if let SearchResult::Found(i) = search_spec(t, s) {
        assert(same(s[i as int], t));
    }
    if let SearchResult::NotFound(ins) = search_spec(t, s) {
        assert forall|k: int| 0 <= k < s.len() implies !same(#[trigger] s[k], t) by {
            if k < ins {
                assert(below(s[k], t));
            } else {
                assert(below(t, s[k]));
            }
        }
    }
}

/// Searches `number` in `arr` by halving. Returns `Found` with the index of an
/// element equal to `number` (not necessarily the first such element), or
/// `NotFound` with the position where the halving stopped. On ascending input
/// that position is where `number` would be inserted to keep it sorted (see
/// `lemma_search_ascending`).
pub fn binary_search(number: &Content, arr: &[Content]) -> (r: SearchResult)
    ensures
        r == search_spec(*number, arr@),
        r matches SearchResult::Found(i) ==> i < arr@.len() && same(arr@[i as int], *number),
        r matches SearchResult::NotFound(i) ==> i <= arr@.len(),
{
    let mut lo: usize = 0;
    let mut hi: usize = arr.len();
    proof {
        lemma_between_bounds(*number, arr@, 0, arr@.len() as int);
    }
    while lo < hi
        invariant
            0 <= lo <= hi <= arr@.len(),
            search_between(*number, arr@, lo as int, hi as int) == search_spec(*number, arr@),
        decreases hi - lo,
    {
        let mid: usize = lo + (hi - lo - 1) / 2;
        if number.is_below(&arr[mid]) {
            hi = mid;
        } else if arr[mid].is_below(number) {
            lo = mid + 1;
        } else {
            return SearchResult::Found(mid);
        }
    }
    SearchResult::NotFound(lo)
}

} // verus!
