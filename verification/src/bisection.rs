//! Bisection growth: how the list of heights that a game asks for doubles from round to round.

use crate::types::copy_of;
use vstd::prelude::*;

verus! {

/// `s` with `x` put in behind the last element that is not above it.
pub open spec fn insert_sorted(s: Seq<u32>, x: u32) -> Seq<u32>
    decreases s.len(),
{
    if s.len() == 0 {
        seq![x]
    } else if s.last() <= x {
        s.push(x)
    } else {
        insert_sorted(s.drop_last(), x).push(s.last())
    }
}

/// The elements of `s` in ascending order.
pub open spec fn sorted_of(s: Seq<u32>) -> Seq<u32>
    decreases s.len(),
{
    if s.len() == 0 {
        s
    } else {
        insert_sorted(sorted_of(s.drop_last()), s.last())
    }
}

/// Whether no element of `s` is above a later one.
pub open spec fn ascending(s: Seq<u32>) -> bool {
    forall|i: int, j: int| 0 <= i < j < s.len() ==> s[i] <= s[j]
}

/// The height halfway between two heights, rounded down.
pub open spec fn midpoint(a: u32, b: u32) -> u32 {
    ((a + b) / 2) as u32
}

/// One midpoint for each pair of neighbours in `sorted`.
pub open spec fn bisections(sorted: Seq<u32>) -> Seq<u32> {
    Seq::new((sorted.len() - 1) as nat, |i: int| midpoint(sorted[i], sorted[i + 1]))
}

/// The samples of the next round: those of this round, followed by one new
/// probe for every gap between neighbouring heights, the last confirmed
/// height counting as a boundary.
pub open spec fn extended_samples(samples: Seq<u32>, last_confirmed: u32) -> Seq<u32> {
    samples + bisections(sorted_of(samples.push(last_confirmed)))
}

/// Inserting at the position behind which every element is larger, and before
/// which the neighbour is not, is `insert_sorted`.
pub proof fn lemma_insert_sorted_at(s: Seq<u32>, x: u32, j: int)
    requires
        0 <= j <= s.len(),
        forall|k: int| j <= k < s.len() ==> s[k] > x,
        j > 0 ==> s[j - 1] <= x,
    ensures
        insert_sorted(s, x) == s.insert(j, x),
    decreases s.len(),
{
    if s.len() == 0 {
        assert(s.insert(j, x) =~= seq![x]);
    } else if j == s.len() {
        assert(s.insert(j, x) =~= s.push(x));
    } else {
        lemma_insert_sorted_at(s.drop_last(), x, j);
        assert(s.insert(j, x) =~= s.drop_last().insert(j, x).push(s.last()));
    }
}

/// Inserting keeps every element and adds the new one.
pub proof fn lemma_insert_sorted_permutes(s: Seq<u32>, x: u32)
    ensures
        insert_sorted(s, x).len() == s.len() + 1,
        insert_sorted(s, x).to_multiset() == s.to_multiset().insert(x),
    decreases s.len(),
{
    broadcast use vstd::seq_lib::group_to_multiset_ensures;

    if s.len() == 0 {
        assert(seq![x] =~= s.push(x));
    } else if s.last() <= x {
    } else {
        let front = s.drop_last();
        lemma_insert_sorted_permutes(front, x);
        assert(s =~= front.push(s.last()));
        assert(front.to_multiset().insert(x).insert(s.last()) =~= front.to_multiset().insert(
            s.last(),
        ).insert(x));
    }
}

/// Inserting into an ascending sequence leaves it ascending.
pub proof fn lemma_insert_sorted_ascending(s: Seq<u32>, x: u32)
    requires
        ascending(s),
    ensures
        ascending(insert_sorted(s, x)),
    decreases s.len(),
{
    if s.len() == 0 {
    } else if s.last() <= x {
    } else {
        let front = s.drop_last();
        lemma_insert_sorted_ascending(front, x);
        lemma_insert_sorted_permutes(front, x);
        let r = insert_sorted(front, x);
        assert forall|i: int| 0 <= i < r.len() implies r[i] <= s.last() by {
            broadcast use vstd::seq_lib::group_to_multiset_ensures;

            assert(r.to_multiset().contains(r[i]));
            if r[i] != x {
                assert(front.to_multiset().contains(r[i]));
                let k = choose|k: int| 0 <= k < front.len() && front[k] == r[i];
                assert(s[k] == r[i]);
            }
        }
    }
}

/// `sorted_of` is ascending and holds the same elements, each as often as before.
pub proof fn lemma_sorted_of(s: Seq<u32>)
    ensures
        ascending(sorted_of(s)),
        sorted_of(s).len() == s.len(),
        sorted_of(s).to_multiset() == s.to_multiset(),
    decreases s.len(),
{
    broadcast use vstd::seq_lib::group_to_multiset_ensures;

    if s.len() > 0 {
        let front = s.drop_last();
        lemma_sorted_of(front);
        lemma_insert_sorted_ascending(sorted_of(front), s.last());
        lemma_insert_sorted_permutes(sorted_of(front), s.last());
        assert(s =~= front.push(s.last()));
    }
}

/// Every new probe lies between the two neighbours whose gap it bisects.
pub proof fn lemma_bisections_between(sorted: Seq<u32>, i: int)
    requires
        ascending(sorted),
        0 <= i < sorted.len() - 1,
    ensures
        sorted[i] <= bisections(sorted)[i] <= sorted[i + 1],
{
}

/// Growth keeps the samples of the round before in front and doubles their number.
pub proof fn lemma_extended_samples(samples: Seq<u32>, last_confirmed: u32)
    ensures
        extended_samples(samples, last_confirmed).len() == 2 * samples.len(),
        extended_samples(samples, last_confirmed).take(samples.len() as int) == samples,
{
    lemma_sorted_of(samples.push(last_confirmed));
    assert(extended_samples(samples, last_confirmed).take(samples.len() as int) =~= samples);
}

/// Computes `midpoint`.
pub fn midpoint_of(a: u32, b: u32) -> (mid: u32)
    ensures
        mid == midpoint(a, b),
{
    ((a as u64 + b as u64) / 2) as u32
}

/// Puts `x` into an ascending vector at its place.
fn insert_in_order(v: &mut Vec<u32>, x: u32)
    ensures
        final(v)@ == insert_sorted(old(v)@, x),
{
    let mut j: usize = v.len();
    while j > 0 && v[j - 1] > x
        invariant
            j <= v.len(),
            v@ == old(v)@,
            forall|k: int| j <= k < v.len() ==> v@[k] > x,
        decreases j,
    {
        j = j - 1;
    }
    proof {
        lemma_insert_sorted_at(v@, x, j as int);
    }
    v.insert(j, x);
}

/// Sorts heights in ascending order.
pub fn sort_heights(heights: &Vec<u32>) -> (sorted: Vec<u32>)
    ensures
        sorted@ == sorted_of(heights@),
{
    let mut sorted: Vec<u32> = Vec::new();
    let mut i: usize = 0;
    while i < heights.len()
        invariant
            i <= heights.len(),
            sorted@ == sorted_of(heights@.take(i as int)),
        decreases heights.len() - i,
    {
        proof {
            assert(heights@.take(i + 1).drop_last() =~= heights@.take(i as int));
        }
        insert_in_order(&mut sorted, heights[i]);
        i = i + 1;
    }
    proof {
        assert(heights@.take(i as int) =~= heights@);
    }
    sorted
}

/// Grows the samples of a game by one bisection step: every gap between
/// neighbouring heights, the last confirmed height included, gets one new
/// probe at its midpoint, and the new probes are appended in ascending order
/// of their gaps.
pub fn update_samples(current_samples: &mut Vec<u32>, last_comfirm_block_height: u32)
    ensures
        final(current_samples)@ == extended_samples(old(current_samples)@, last_comfirm_block_height),
{
    let mut with_boundary: Vec<u32> = copy_of(current_samples);
    with_boundary.push(last_comfirm_block_height);
    let sorted_samples = sort_heights(&with_boundary);
    proof {
        lemma_sorted_of(with_boundary@);
    }
    let count: usize = current_samples.len();
    let ghost before = current_samples@;
    let mut k: usize = 0;
    while k < count
        invariant
            k <= count,
            count == before.len(),
            sorted_samples@.len() == count + 1,
            sorted_samples@ == sorted_of(before.push(last_comfirm_block_height)),
            current_samples@ == before + bisections(sorted_samples@).take(k as int),
        decreases count - k,
    {
        let mid: u32 = midpoint_of(sorted_samples[k], sorted_samples[k + 1]);
        current_samples.push(mid);
        proof {
            assert(bisections(sorted_samples@).take(k + 1) =~= bisections(sorted_samples@).take(
                k as int,
            ).push(mid));
            assert(current_samples@ =~= before + bisections(sorted_samples@).take(k + 1));
        }
        k = k + 1;
    }
    proof {
        assert(bisections(sorted_samples@).take(k as int) =~= bisections(sorted_samples@));
    }
}

} // verus!
