//! Claims filed under one height: telling rounds apart, and the honest claim from the others.

use crate::types::{views, EthHeader, Proposal, ProposalView};
use vstd::prelude::*;

verus! {

/// Whether the last checkpoint of a claim carries the given content tag.
pub open spec fn tip_matches(p: ProposalView, tag: u32) -> bool {
    p.headers.len() > 0 && p.headers.last().lie == tag
}

/// The claims of one round.
pub open spec fn in_round(round: int) -> spec_fn(ProposalView) -> bool {
    |p: ProposalView| p.round == round
}

/// The claims of every other round.
pub open spec fn out_of_round(round: int) -> spec_fn(ProposalView) -> bool {
    |p: ProposalView| p.round != round
}

/// The claims of one round that end in the given content.
pub open spec fn honest_in(round: int, tag: u32) -> spec_fn(ProposalView) -> bool {
    |p: ProposalView| p.round == round && tip_matches(p, tag)
}

/// The claims of one round that end in other content.
pub open spec fn dishonest_in(round: int, tag: u32) -> spec_fn(ProposalView) -> bool {
    |p: ProposalView| p.round == round && !tip_matches(p, tag)
}

/// The claim that a pointer `(round, tag)` into a bucket designates: the
/// latest claim of that round that ends in that content.
pub open spec fn designated(bucket: Seq<ProposalView>, round: int, tag: u32) -> Option<ProposalView> {
    let honest = bucket.filter(honest_in(round, tag));
    if honest.len() == 0 {
        None
    } else {
        Some(honest.last())
    }
}

/// The views of the first `i + 1` claims are those of the first `i`, followed by the next.
pub proof fn lemma_views_take_push(bucket: Seq<Proposal>, i: int)
    requires
        0 <= i < bucket.len(),
    ensures
        views(bucket).take(i + 1) == views(bucket).take(i).push(bucket[i]@),
        views(bucket).len() == bucket.len(),
{
    assert(views(bucket).take(i + 1) =~= views(bucket).take(i).push(bucket[i]@));
}

/// Whether the last checkpoint of a claim carries the given content tag.
pub fn has_tip(p: &Proposal, tag: u32) -> (b: bool)
    ensures
        b == tip_matches(p@, tag),
{
    let n = p.headers.len();
    n > 0 && p.headers[n - 1].lie == tag
}

/// How many claims of a bucket belong to a round.
pub fn count_in_round(bucket: &Vec<Proposal>, round: u32) -> (n: usize)
    ensures
        n == views(bucket@).filter(in_round(round as int)).len(),
{
    let mut n: usize = 0;
    let mut i: usize = 0;
    while i < bucket.len()
        invariant
            i <= bucket.len(),
            n <= i,
            n == views(bucket@).take(i as int).filter(in_round(round as int)).len(),
        decreases bucket.len() - i,
    {
        proof {
            lemma_views_take_push(bucket@, i as int);
            views(bucket@).take(i as int).lemma_filter_push(bucket@[i as int]@, in_round(round as int));
        }
        if bucket[i].round == round {
            n = n + 1;
        }
        i = i + 1;
    }
    proof {
        assert(views(bucket@).take(i as int) =~= views(bucket@));
    }
    n
}

/// The place of the claim that a pointer designates, if the bucket holds one.
pub fn find_designated(bucket: &Vec<Proposal>, round: u32, tag: u32) -> (found: Option<usize>)
    ensures
        match found {
            Some(i) => i < bucket.len() && designated(views(bucket@), round as int, tag) == Some(
                bucket@[i as int]@,
            ),
            None => designated(views(bucket@), round as int, tag) is None,
        },
{
    let mut found: Option<usize> = None;
    let mut i: usize = 0;
    while i < bucket.len()
        invariant
            i <= bucket.len(),
            match found {
                Some(j) => j < i && designated(views(bucket@).take(i as int), round as int, tag)
                    == Some(bucket@[j as int]@),
                None => designated(views(bucket@).take(i as int), round as int, tag) is None,
            },
        decreases bucket.len() - i,
    {
        proof {
            lemma_views_take_push(bucket@, i as int);
            views(bucket@).take(i as int).lemma_filter_push(
                bucket@[i as int]@,
                honest_in(round as int, tag),
            );
        }
        if bucket[i].round == round && has_tip(&bucket[i], tag) {
            found = Some(i);
        }
        i = i + 1;
    }
    proof {
        assert(views(bucket@).take(i as int) =~= views(bucket@));
    }
    found
}

/// The place of the latest claim of a round, if the bucket holds one.
pub fn find_last_in_round(bucket: &Vec<Proposal>, round: u32) -> (found: Option<usize>)
    ensures
        match found {
            Some(i) => i < bucket.len() && views(bucket@).filter(in_round(round as int)).len() > 0
                && views(bucket@).filter(in_round(round as int)).last() == bucket@[i as int]@,
            None => views(bucket@).filter(in_round(round as int)).len() == 0,
        },
{
    let mut found: Option<usize> = None;
    let mut i: usize = 0;
    while i < bucket.len()
        invariant
            i <= bucket.len(),
            match found {
                Some(j) => j < i && views(bucket@).take(i as int).filter(
                    in_round(round as int),
                ).len() > 0 && views(bucket@).take(i as int).filter(in_round(round as int)).last()
                    == bucket@[j as int]@,
                None => views(bucket@).take(i as int).filter(in_round(round as int)).len() == 0,
            },
        decreases bucket.len() - i,
    {
        proof {
            lemma_views_take_push(bucket@, i as int);
            views(bucket@).take(i as int).lemma_filter_push(bucket@[i as int]@, in_round(round as int));
        }
        if bucket[i].round == round {
            found = Some(i);
        }
        i = i + 1;
    }
    proof {
        assert(views(bucket@).take(i as int) =~= views(bucket@));
    }
    found
}

/// The claims of a bucket that do not belong to a round, in order.
pub fn claims_out_of_round(bucket: &Vec<Proposal>, round: u32) -> (rest: Vec<Proposal>)
    ensures
        views(rest@) == views(bucket@).filter(out_of_round(round as int)),
{
    let mut rest: Vec<Proposal> = Vec::new();
    let mut i: usize = 0;
    proof {
        reveal(Seq::filter);
        assert(views(rest@) =~= views(bucket@).take(0).filter(out_of_round(round as int)));
    }
    while i < bucket.len()
        invariant
            i <= bucket.len(),
            views(rest@) == views(bucket@).take(i as int).filter(out_of_round(round as int)),
        decreases bucket.len() - i,
    {
        proof {
            lemma_views_take_push(bucket@, i as int);
            views(bucket@).take(i as int).lemma_filter_push(
                bucket@[i as int]@,
                out_of_round(round as int),
            );
        }
        if bucket[i].round != round {
            let ghost before = rest@;
            let copy = bucket[i].clone();
            rest.push(copy);
            proof {
                assert(views(rest@) =~= views(before).push(bucket@[i as int]@));
            }
        }
        i = i + 1;
    }
    proof {
        assert(views(bucket@).take(i as int) =~= views(bucket@));
    }
    rest
}

/// The claims of a round that end in other content than the pointer names, in order.
pub fn dishonest_claims(bucket: &Vec<Proposal>, round: u32, tag: u32) -> (liars: Vec<Proposal>)
    ensures
        views(liars@) == views(bucket@).filter(dishonest_in(round as int, tag)),
{
    let mut liars: Vec<Proposal> = Vec::new();
    let mut i: usize = 0;
    proof {
        reveal(Seq::filter);
        assert(views(liars@) =~= views(bucket@).take(0).filter(dishonest_in(round as int, tag)));
    }
    while i < bucket.len()
        invariant
            i <= bucket.len(),
            views(liars@) == views(bucket@).take(i as int).filter(dishonest_in(round as int, tag)),
        decreases bucket.len() - i,
    {
        proof {
            lemma_views_take_push(bucket@, i as int);
            views(bucket@).take(i as int).lemma_filter_push(
                bucket@[i as int]@,
                dishonest_in(round as int, tag),
            );
        }
        if bucket[i].round == round && !has_tip(&bucket[i], tag) {
            let ghost before = liars@;
            let copy = bucket[i].clone();
            liars.push(copy);
            proof {
                assert(views(liars@) =~= views(before).push(bucket@[i as int]@));
            }
        }
        i = i + 1;
    }
    proof {
        assert(views(bucket@).take(i as int) =~= views(bucket@));
    }
    liars
}

/// Whether two lists of checkpoints agree over the first `count` places.
pub fn same_prefix(a: &Vec<EthHeader>, b: &Vec<EthHeader>, count: usize) -> (same: bool)
    requires
        count <= a.len(),
        count <= b.len(),
    ensures
        same == (a@.take(count as int) == b@.take(count as int)),
{
    let mut i: usize = 0;
    while i < count
        invariant
            i <= count,
            count <= a.len(),
            count <= b.len(),
            a@.take(i as int) == b@.take(i as int),
        decreases count - i,
    {
        if a[i].lie != b[i].lie || a[i].block_height != b[i].block_height {
            proof {
                assert(a@.take(count as int)[i as int] != b@.take(count as int)[i as int]);
            }
            return false;
        }
        proof {
            assert(a@.take(i + 1) =~= a@.take(i as int).push(a@[i as int]));
            assert(b@.take(i + 1) =~= b@.take(i as int).push(b@[i as int]));
        }
        i = i + 1;
    }
    true
}

} // verus!
