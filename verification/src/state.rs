//! The game engine's state as mathematics, and what a submission does to it.

use crate::claims::{designated, honest_in, in_round};
use crate::round::{lemma_round_of_bounds, lemma_round_of_fits, previous_count, round_of};
use crate::types::{AccountId, BlockNumber, Error, EthHeader, Event, ProposalView};
use vstd::prelude::*;

verus! {

/// How many host blocks a claim stays open to challenge.
pub const CHANGE_WAITING_BLOCKS: u64 = 50;

/// The default bond that a dishonest claimant loses and an honest one gains per loser.
pub const BOND_VALUE: u32 = 100;

/// The engine's state as plain mathematics. The three tables are total: a
/// height without claims maps to the empty sequence, and so on.
pub struct RelayView {
    /// The bond per level.
    pub bond: u32,
    /// The root of trust, once it was set.
    pub last_confirmed_header: Option<EthHeader>,
    /// The confirmed ledger: the canonical checkpoint of each confirmed height.
    pub confirmed_blocks: Map<u32, EthHeader>,
    /// The claims filed under each height, oldest first.
    pub proposals: Map<u32, Seq<ProposalView>>,
    /// The `(game, round)` pairs due at each host height, oldest first.
    pub challenge_times: Map<u64, Seq<(u32, u32)>>,
    /// The heights that each game asks for, keyed by the game's first height.
    pub samples: Map<u32, Seq<u32>>,
}

/// The heights of a list of checkpoints.
pub open spec fn heights_of(headers: Seq<EthHeader>) -> Seq<u32> {
    headers.map_values(|h: EthHeader| h.block_height)
}

/// `front` followed by `tail`, where there is a front.
pub open spec fn joined(front: Option<Seq<EthHeader>>, tail: Seq<EthHeader>) -> Option<
    Seq<EthHeader>,
> {
    match front {
        Some(f) => Some(f + tail),
        None => None,
    }
}

/// Every checkpoint that a claim stands for: those of the claims it builds
/// on, from the first round on, followed by its own. `None` where the chain
/// of claims is broken. `depth` bounds the number of steps back; a claim's
/// round suffices.
pub open spec fn lineage(
    proposals: Map<u32, Seq<ProposalView>>,
    p: ProposalView,
    depth: nat,
) -> Option<Seq<EthHeader>>
    decreases depth,
{
    match p.extend_from {
        None => Some(p.headers),
        Some(pointer) => if depth == 0 || p.round == 0 {
            None
        } else {
            match designated(proposals[pointer.0], p.round - 1, pointer.1) {
                None => None,
                Some(q) => joined(lineage(proposals, q, (depth - 1) as nat), p.headers),
            }
        },
    }
}

/// Whether some claim of the round before, filed under the last of the
/// leading `prev` checkpoints, stands for exactly those checkpoints.
pub open spec fn extends_some_claim(
    proposals: Map<u32, Seq<ProposalView>>,
    headers: Seq<EthHeader>,
    prev: int,
    round: int,
) -> bool {
    let bucket = proposals[headers[prev - 1].block_height];
    exists|i: int|
        0 <= i < bucket.len() && is_antecedent(proposals, #[trigger] bucket[i], headers, prev, round)
}

/// Whether `q` is a claim of the round before `round` that stands for the leading `prev` checkpoints.
pub open spec fn is_antecedent(
    proposals: Map<u32, Seq<ProposalView>>,
    q: ProposalView,
    headers: Seq<EthHeader>,
    prev: int,
    round: int,
) -> bool {
    q.round == round - 1 && lineage(proposals, q, q.round as nat) == Some(headers.take(prev))
}

/// Why a submission is turned down, if it is.
pub open spec fn submit_verdict(s: RelayView, headers: Seq<EthHeader>) -> Option<Error> {
    if headers.len() == 0 {
        Some(Error::HeaderInvalid)
    } else if round_of(headers.len()) == 1 {
        None
    } else if s.samples[headers[0].block_height] != heights_of(headers) {
        Some(Error::NotComplyWithSamples)
    } else if !extends_some_claim(
        s.proposals,
        headers,
        previous_count(headers.len()),
        round_of(headers.len()) as int,
    ) {
        Some(Error::NotExtendFromError)
    } else {
        None
    }
}

/// The checkpoints of a submission that the engine keeps: in the first round
/// the checkpoint itself, later those that the round added.
pub open spec fn kept_headers(headers: Seq<EthHeader>) -> Seq<EthHeader> {
    if round_of(headers.len()) == 1 {
        headers
    } else {
        headers.skip(previous_count(headers.len()))
    }
}

/// The claim that an accepted submission is stored as: the checkpoints that
/// are kept, and beyond the first round a pointer to the last checkpoint of
/// the rounds before.
pub open spec fn accepted_claim(who: AccountId, headers: Seq<EthHeader>) -> ProposalView {
    let round = round_of(headers.len());
    let prev = previous_count(headers.len());
    ProposalView {
        headers: kept_headers(headers),
        round: round as u32,
        relayer: who,
        extend_from: if round == 1 {
            None
        } else {
            Some((headers[prev - 1].block_height, headers[prev - 1].lie))
        },
    }
}

/// What an accepted submission announces: the first and the last height
/// that it added, and its round.
pub open spec fn submit_event(headers: Seq<EthHeader>) -> Event {
    Event::SubmitHeaders(
        kept_headers(headers).first().block_height,
        kept_headers(headers).last().block_height,
        round_of(headers.len()) as u32,
    )
}

/// The state after an accepted submission at host height `now`.
pub open spec fn after_submit(
    s: RelayView,
    who: AccountId,
    headers: Seq<EthHeader>,
    now: BlockNumber,
) -> RelayView {
    let claim = accepted_claim(who, headers);
    let game = headers[0].block_height;
    let last = claim.headers.last().block_height;
    let due = (now + CHANGE_WAITING_BLOCKS) as u64;
    RelayView {
        samples: if claim.round == 1 && s.samples[game].len() == 0 {
            s.samples.insert(game, seq![game])
        } else {
            s.samples
        },
        challenge_times: if s.proposals[last].filter(in_round(claim.round as int)).len() == 0 {
            s.challenge_times.insert(due, s.challenge_times[due].push((game, claim.round)))
        } else {
            s.challenge_times
        },
        proposals: s.proposals.insert(last, s.proposals[last].push(claim)),
        ..s
    }
}

/// The state of an engine that has seen nothing yet.
pub open spec fn initial_state(bond: u32) -> RelayView {
    RelayView {
        bond,
        last_confirmed_header: None,
        confirmed_blocks: Map::empty(),
        proposals: Map::total(|h: u32| Seq::empty()),
        challenge_times: Map::total(|b: u64| Seq::empty()),
        samples: Map::total(|g: u32| Seq::empty()),
    }
}

/// Whether a claim is fit to be stored under a height: it carries a
/// checkpoint, its last checkpoint is at that height, and it points at a claim
/// of the round before exactly when it is beyond the first round.
pub open spec fn claim_in_order(p: ProposalView, height: u32) -> bool {
    &&& p.headers.len() > 0
    &&& p.headers.last().block_height == height
    &&& p.round >= 1
    &&& (p.round == 1 <==> p.extend_from is None)
}

/// Whether every stored claim is fit for the height it is stored under.
pub open spec fn claims_in_order(proposals: Map<u32, Seq<ProposalView>>) -> bool {
    forall|h: u32, i: int|
        0 <= i < proposals[h].len() ==> claim_in_order(#[trigger] proposals[h][i], h)
}

/// Whether every game that has samples is keyed by the first of them.
pub open spec fn samples_in_order(samples: Map<u32, Seq<u32>>) -> bool {
    forall|g: u32| (#[trigger] samples[g]).len() > 0 ==> samples[g][0] == g
}

/// Whether the three tables have an entry for every key.
pub open spec fn tables_total(s: RelayView) -> bool {
    &&& forall|h: u32| #[trigger] s.proposals.contains_key(h)
    &&& forall|b: u64| #[trigger] s.challenge_times.contains_key(b)
    &&& forall|g: u32| #[trigger] s.samples.contains_key(g)
}

/// The invariant of the engine's state.
pub open spec fn well_formed(s: RelayView) -> bool {
    tables_total(s) && claims_in_order(s.proposals) && samples_in_order(s.samples)
}

/// An engine that has seen nothing is in order.
pub proof fn lemma_initial_state_well_formed(bond: u32)
    ensures
        well_formed(initial_state(bond)),
{
}

/// A submission of a single checkpoint is always accepted, and a game that
/// had no samples then asks for exactly that checkpoint's height.
pub proof fn lemma_first_round_is_accepted(
    s: RelayView,
    who: AccountId,
    headers: Seq<EthHeader>,
    now: BlockNumber,
)
    requires
        tables_total(s),
        headers.len() == 1,
    ensures
        submit_verdict(s, headers) is None,
        accepted_claim(who, headers) == (ProposalView {
            headers,
            round: 1,
            relayer: who,
            extend_from: None,
        }),
        after_submit(s, who, headers, now).proposals[headers[0].block_height] == s.proposals[headers[0].block_height].push(
            accepted_claim(who, headers),
        ),
        s.samples[headers[0].block_height].len() == 0 ==> after_submit(s, who, headers, now).samples[headers[0].block_height]
            == seq![headers[0].block_height],
{
}

/// A submission beyond the first round whose heights are not exactly the
/// game's samples is turned down for that reason.
pub proof fn lemma_samples_must_be_followed(s: RelayView, headers: Seq<EthHeader>)
    requires
        tables_total(s),
        headers.len() >= 2,
        s.samples[headers[0].block_height] != heights_of(headers),
    ensures
        submit_verdict(s, headers) == Some(Error::NotComplyWithSamples),
{
    lemma_round_of_bounds(headers.len());
}

/// A submission beyond the first round that follows the samples, but whose
/// leading checkpoints no claim of the round before stands for, is turned
/// down for that reason.
pub proof fn lemma_antecedent_is_needed(s: RelayView, headers: Seq<EthHeader>)
    requires
        tables_total(s),
        headers.len() >= 2,
        s.samples[headers[0].block_height] == heights_of(headers),
        !extends_some_claim(
            s.proposals,
            headers,
            previous_count(headers.len()),
            round_of(headers.len()) as int,
        ),
    ensures
        submit_verdict(s, headers) == Some(Error::NotExtendFromError),
{
    lemma_round_of_bounds(headers.len());
}

/// An accepted submission stores one claim more and leaves every other claim,
/// the confirmed ledger and the root of trust as they were.
pub proof fn lemma_submit_frame(s: RelayView, who: AccountId, headers: Seq<EthHeader>, now: BlockNumber)
    requires
        tables_total(s),
        headers.len() <= usize::MAX,
        submit_verdict(s, headers) is None,
    ensures
        tables_total(after_submit(s, who, headers, now)),
        after_submit(s, who, headers, now).confirmed_blocks == s.confirmed_blocks,
        after_submit(s, who, headers, now).last_confirmed_header == s.last_confirmed_header,
        after_submit(s, who, headers, now).bond == s.bond,
        claim_in_order(
            accepted_claim(who, headers),
            accepted_claim(who, headers).headers.last().block_height,
        ),
        forall|h: u32|
            h != accepted_claim(who, headers).headers.last().block_height ==> after_submit(
                s,
                who,
                headers,
                now,
            ).proposals[h] == s.proposals[h],
{
    if headers.len() >= 2 {
        lemma_round_of_bounds(headers.len());
        lemma_round_of_fits(headers.len());
    }
}

/// An accepted submission keeps the engine's state in order.
pub proof fn lemma_submit_keeps_well_formed(
    s: RelayView,
    who: AccountId,
    headers: Seq<EthHeader>,
    now: BlockNumber,
)
    requires
        well_formed(s),
        headers.len() <= usize::MAX,
        submit_verdict(s, headers) is None,
    ensures
        well_formed(after_submit(s, who, headers, now)),
{
    lemma_submit_frame(s, who, headers, now);
    let after = after_submit(s, who, headers, now);
    let claim = accepted_claim(who, headers);
    let last = claim.headers.last().block_height;
    assert forall|h: u32, i: int| 0 <= i < after.proposals[h].len() implies claim_in_order(
        #[trigger] after.proposals[h][i],
        h,
    ) by {
        if h == last {
            if i < s.proposals[h].len() {
                assert(after.proposals[h][i] == s.proposals[h][i]);
            }
        } else {
            assert(after.proposals[h][i] == s.proposals[h][i]);
        }
    }
    assert forall|g: u32| (#[trigger] after.samples[g]).len() > 0 implies after.samples[g][0]
        == g by {
        if after.samples[g] != s.samples[g] {
            assert(g == headers[0].block_height);
        }
    }
}

/// The pointer of an accepted claim beyond the first round designates a
/// claim of the round before: settling the claim right away would find its
/// antecedent.
pub proof fn lemma_accepted_claim_points_at_a_claim(
    s: RelayView,
    who: AccountId,
    headers: Seq<EthHeader>,
    now: BlockNumber,
)
    requires
        well_formed(s),
        2 <= headers.len() <= usize::MAX,
        submit_verdict(s, headers) is None,
    ensures
        accepted_claim(who, headers).extend_from is Some,
        designated(
            after_submit(s, who, headers, now).proposals[accepted_claim(
                who,
                headers,
            ).extend_from.unwrap().0],
            accepted_claim(who, headers).round - 1,
            accepted_claim(who, headers).extend_from.unwrap().1,
        ) is Some,
{
    lemma_round_of_bounds(headers.len());
    lemma_round_of_fits(headers.len());
    lemma_submit_frame(s, who, headers, now);
    let claim = accepted_claim(who, headers);
    let round = round_of(headers.len()) as int;
    let prev = previous_count(headers.len());
    let at = claim.extend_from.unwrap();
    let before = s.proposals[at.0];
    let i = choose|i: int|
        0 <= i < before.len() && is_antecedent(s.proposals, #[trigger] before[i], headers, prev, round);
    let q = before[i];
    assert(claim_in_order(q, at.0));
    let up = lineage(s.proposals, q, q.round as nat);
    assert(up == Some(headers.take(prev)));
    assert(up.unwrap().last() == q.headers.last()) by {
        if q.extend_from is Some {
            let pointer = q.extend_from.unwrap();
            let parent = designated(s.proposals[pointer.0], q.round - 1, pointer.1);
            let above = lineage(s.proposals, parent.unwrap(), (q.round - 1) as nat);
            assert(up == joined(above, q.headers));
        }
    }
    assert(headers.take(prev).last() == headers[prev - 1]);
    let after = after_submit(s, who, headers, now).proposals[at.0];
    assert(after[i] == q) by {
        if at.0 == claim.headers.last().block_height {
            assert(after == before.push(claim));
        }
    }
    after.lemma_filter_contains(honest_in(claim.round - 1, at.1), i);
}

} // verus!
