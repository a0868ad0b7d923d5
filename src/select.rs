use vstd::prelude::*;

use crate::content::{same, Content};
use crate::search::{binary_search, lemma_between_bounds, search_spec, SearchResult};

verus! {

/// Some element of `s` is the wildcard.
pub open spec fn has_any(s: Seq<Content>) -> bool {
    exists|k: int| 0 <= k < s.len() && (#[trigger] s[k]) is Any
}

/// Some element of `res` equals `v`.
pub open spec fn holds(res: Seq<Content>, v: Content) -> bool {
    exists|k: int| 0 <= k < res.len() && same(#[trigger] res[k], v)
}

/// No two elements of `s` are equal.
pub open spec fn distinct_values(s: Seq<Content>) -> bool {
    forall|i: int, j: int| 0 <= i < j < s.len() ==> !same(#[trigger] s[i], #[trigger] s[j])
}

/// Every element of `r` is an element of `avail`.
pub open spec fn drawn_from(r: Seq<Content>, avail: Seq<Content>) -> bool {
    forall|k: int| 0 <= k < r.len() ==> avail.contains(#[trigger] r[k])
}

/// Offering a candidate: the available element that the search finds for it is
/// appended, unless a value equal to it has been selected already.
pub open spec fn offer(avail: Seq<Content>, res: Seq<Content>, c: Content) -> Seq<Content> {
    match search_spec(c, avail) {
        SearchResult::Found(j) => if holds(res, avail[j as int]) {
            res
        } else {
            res.push(avail[j as int])
        },
        SearchResult::NotFound(_) => res,
    }
}

/// The value that the allowed entry at `k` stands for when `p` is preferred:
/// the entry itself, or `p` where the entry is the wildcard.
pub open spec fn candidate(allowed: Seq<Content>, k: int, p: Content) -> Content {
    if allowed[k] is Any {
        p
    } else {
        allowed[k]
    }
}

/// Offers the candidate of the allowed entry at `k`.
pub open spec fn offer_at(
    avail: Seq<Content>,
    allowed: Seq<Content>,
    p: Content,
    res: Seq<Content>,
    k: int,
) -> Seq<Content> {
    offer(avail, res, candidate(allowed, k, p))
}

/// The fallback: the allowed entry at `right` if there is one, and if that
/// selects nothing, the one at `left` if `left` is above zero.
pub open spec fn fall_back(
    avail: Seq<Content>,
    allowed: Seq<Content>,
    p: Content,
    res: Seq<Content>,
    right: int,
    left: int,
) -> Seq<Content> {
    let r1 = if right < allowed.len() {
        offer_at(avail, allowed, p, res, right)
    } else {
        res
    };
    if r1.len() > res.len() {
        r1
    } else if left > 0 {
        offer_at(avail, allowed, p, res, left)
    } else {
        res
    }
}

/// A concrete preferred value: the allowed entry that matches it, else its
/// right then its left neighbour; where none matches, the entry at the
/// insertion position, then the one before it.
pub open spec fn step_concrete(
    avail: Seq<Content>,
    allowed: Seq<Content>,
    p: Content,
    res: Seq<Content>,
) -> Seq<Content> {
    match search_spec(p, allowed) {
        SearchResult::Found(i) => {
            let r0 = offer_at(avail, allowed, p, res, i as int);
            if r0.len() > res.len() {
                r0
            } else {
                fall_back(avail, allowed, p, res, i + 1, i - 1)
            }
        },
        SearchResult::NotFound(ins) => fall_back(avail, allowed, p, res, ins as int, ins - 1),
    }
}

/// Offers the first `n` allowed entries in order.
pub open spec fn offer_each(
    avail: Seq<Content>,
    allowed: Seq<Content>,
    res: Seq<Content>,
    n: int,
) -> Seq<Content>
    decreases n,
{
    if n <= 0 {
        res
    } else {
        offer(avail, offer_each(avail, allowed, res, n - 1), allowed[n - 1])
    }
}

/// One preferred entry: a wildcard offers every allowed entry, a concrete
/// value goes through `step_concrete`.
pub open spec fn step(
    avail: Seq<Content>,
    allowed: Seq<Content>,
    p: Content,
    res: Seq<Content>,
) -> Seq<Content> {
    if p is Any {
        offer_each(avail, allowed, res, allowed.len() as int)
    } else {
        step_concrete(avail, allowed, p, res)
    }
}

/// The selection after the first `n` preferred entries.
pub open spec fn select_upto(
    avail: Seq<Content>,
    allowed: Seq<Content>,
    pref: Seq<Content>,
    n: int,
) -> Seq<Content>
    decreases n,
{
    if n <= 0 {
        Seq::empty()
    } else {
        step(avail, allowed, pref[n - 1], select_upto(avail, allowed, pref, n - 1))
    }
}

/// The selection: nothing when an input is empty; all of `avail` when both
/// `pref` and `allowed` hold a wildcard; otherwise each preferred entry in
/// turn.
pub open spec fn selection(
    avail: Seq<Content>,
    allowed: Seq<Content>,
    pref: Seq<Content>,
) -> Seq<Content> {
    if avail.len() == 0 || allowed.len() == 0 || pref.len() == 0 {
        Seq::empty()
    } else if has_any(pref) && has_any(allowed) {
        avail
    } else {
        select_upto(avail, allowed, pref, pref.len() as int)
    }
}

/// An offer keeps the selection drawn from `avail` and free of equal values.
proof fn lemma_offer_keeps(avail: Seq<Content>, res: Seq<Content>, c: Content)
    requires
        avail.len() <= usize::MAX,
        drawn_from(res, avail),
        distinct_values(res),
    ensures
        drawn_from(offer(avail, res, c), avail),
        distinct_values(offer(avail, res, c)),
{
    lemma_between_bounds(c, avail, 0, avail.len() as int);
    if let SearchResult::Found(j) = search_spec(c, avail) {
        let x = avail[j as int];
        if !holds(res, x) {
            let r = res.push(x);
            assert(avail.contains(avail[j as int]));
            assert forall|k: int| 0 <= k < r.len() implies avail.contains(#[trigger] r[k]) by {
                if k < res.len() {
                    assert(avail.contains(res[k]));
                }
            }
            assert forall|a: int, b: int| 0 <= a < b < r.len() implies !same(
                #[trigger] r[a],
                #[trigger] r[b],
            ) by {
                if b == res.len() {
                    assert(!same(res[a], x));
                } else {
                    assert(!same(res[a], res[b]));
                }
            }
        }
    }
}

/// Whether `res` holds a value equal to `v`; a scan, since the selection keeps
/// the order in which values were found and is not sorted.
fn holds_value(res: &Vec<Content>, v: &Content) -> (r: bool)
    ensures
        r == holds(res@, *v),
{
    let mut k: usize = 0;
    while k < res.len()
        invariant
            k <= res@.len(),
            forall|m: int| 0 <= m < k ==> !same(#[trigger] res@[m], *v),
        decreases res@.len() - k,
    {
        if res[k].same_as(v) {
            return true;
        }
        k += 1;
    }
    false
}

/// Appends the available element found for `value`, unless an equal value is
/// selected already; returns whether it appended.
fn append_if_available(value: &Content, available: &[Content], result: &mut Vec<Content>) -> (r:
    bool)
    requires
        drawn_from(old(result)@, available@),
        distinct_values(old(result)@),
    ensures
        final(result)@ == offer(available@, old(result)@, *value),
        r == (final(result)@.len() > old(result)@.len()),
        drawn_from(final(result)@, available@),
        distinct_values(final(result)@),
{
    proof {
        assert(available@.len() == available.len());
        lemma_offer_keeps(available@, result@, *value);
    }
    match binary_search(value, available) {
        SearchResult::Found(j) => {
            let found = available[j];
            if holds_value(result, &found) {
                false
            } else {
                result.push(found);
                true
            }
        },
        SearchResult::NotFound(_) => false,
    }
}

/// Offers the candidate of the allowed entry at `k`.
fn append_at(
    available: &[Content],
    allowed: &[Content],
    p: &Content,
    k: usize,
    result: &mut Vec<Content>,
) -> (r: bool)
    requires
        k < allowed@.len(),
        drawn_from(old(result)@, available@),
        distinct_values(old(result)@),
    ensures
        final(result)@ == offer_at(available@, allowed@, *p, old(result)@, k as int),
        r == (final(result)@.len() > old(result)@.len()),
        drawn_from(final(result)@, available@),
        distinct_values(final(result)@),
{
    let c = if allowed[k].is_any() {
        *p
    } else {
        allowed[k]
    };
    append_if_available(&c, available, result)
}

/// The fallback of `fall_back`.
fn append_fall_back(
    available: &[Content],
    allowed: &[Content],
    p: &Content,
    right: usize,
    left: usize,
    result: &mut Vec<Content>,
)
    requires
        left > 0 ==> left < allowed@.len(),
        drawn_from(old(result)@, available@),
        distinct_values(old(result)@),
    ensures
        final(result)@ == fall_back(
            available@,
            allowed@,
            *p,
            old(result)@,
            right as int,
            left as int,
        ),
        drawn_from(final(result)@, available@),
        distinct_values(final(result)@),
{
    let done = if right < allowed.len() {
        append_at(available, allowed, p, right, result)
    } else {
        false
    };
    if !done && left > 0 {
        append_at(available, allowed, p, left, result);
    }
}

/// One concrete preferred value, as `step_concrete` states.
fn append_concrete(
    available: &[Content],
    allowed: &[Content],
    p: &Content,
    result: &mut Vec<Content>,
)
    requires
        drawn_from(old(result)@, available@),
        distinct_values(old(result)@),
    ensures
        final(result)@ == step_concrete(available@, allowed@, *p, old(result)@),
        drawn_from(final(result)@, available@),
        distinct_values(final(result)@),
{
    proof {
        assert(allowed@.len() == allowed.len());
    }
    match binary_search(p, allowed) {
        SearchResult::Found(i) => {
            if !append_at(available, allowed, p, i, result) {
                let left: usize = if i > 0 {
                    i - 1
                } else {
                    0
                };
                append_fall_back(available, allowed, p, i + 1, left, result);
            }
        },
        SearchResult::NotFound(ins) => {
            let left: usize = if ins > 0 {
                ins - 1
            } else {
                0
            };
            append_fall_back(available, allowed, p, ins, left, result);
        },
    }
}

/// Selects, for each value of `preferred` in turn, a value that is both in
/// `available` and in `allowed`: the matching allowed value, else the next
/// greater allowed value, else the next lower one (never the one at the first
/// position). A wildcard in `allowed` accepts the preferred value itself; a
/// wildcard in `preferred` offers every allowed value, and when `allowed` holds
/// a wildcard too, the result is all of `available`. Inputs are meant to be
/// sorted ascending. A value is added only when no equal value is there yet.
pub fn attempt(available: &[Content], allowed: &[Content], preferred: &[Content]) -> (r: Vec<
    Content,
>)
    ensures
        r@ == selection(available@, allowed@, preferred@),
        available@.len() == 0 || allowed@.len() == 0 || preferred@.len() == 0 ==> r@.len() == 0,
        drawn_from(r@, available@),
        has_any(preferred@) && has_any(allowed@) ==> r@ == available@,
        (has_any(preferred@) && has_any(allowed@) ==> distinct_values(available@))
            ==> distinct_values(r@),
{
    let mut result: Vec<Content> = Vec::new();
    if available.len() == 0 || allowed.len() == 0 || preferred.len() == 0 {
        return result;
    }
    let mut i: usize = 0;
    while i < preferred.len()
        invariant
            0 < available@.len(),
            0 < allowed@.len(),
            0 < preferred@.len(),
            i <= preferred@.len(),
            result@ == select_upto(available@, allowed@, preferred@, i as int),
            has_any(allowed@) ==> forall|k: int| 0 <= k < i ==> !(#[trigger] preferred@[k] is Any),
            drawn_from(result@, available@),
            distinct_values(result@),
        decreases preferred@.len() - i,
    {
        let p = preferred[i];
        if p.is_any() {
            let ghost before = result@;
            let mut j: usize = 0;
            while j < allowed.len()
                invariant
                    0 < available@.len(),
                    j <= allowed@.len(),
                    i < preferred@.len(),
                    p == preferred@[i as int],
                    p is Any,
                    before == select_upto(available@, allowed@, preferred@, i as int),
                    result@ == offer_each(available@, allowed@, before, j as int),
                    forall|k: int| 0 <= k < j ==> !(#[trigger] allowed@[k] is Any),
                    has_any(allowed@) ==> forall|k: int|
                        0 <= k < i ==> !(#[trigger] preferred@[k] is Any),
                    drawn_from(result@, available@),
                    distinct_values(result@),
                decreases allowed@.len() - j,
            {
                if allowed[j].is_any() {
                    assert(preferred@[i as int] is Any);
                    assert(allowed@[j as int] is Any);
                    return vstd::slice::slice_to_vec(available);
                }
                append_if_available(&allowed[j], available, &mut result);
                j += 1;
            }
            assert(!has_any(allowed@));
        } else {
            append_concrete(available, allowed, &p, &mut result);
        }
        i += 1;
    }
    assert(!(has_any(preferred@) && has_any(allowed@)));
    result
}

} // verus!
