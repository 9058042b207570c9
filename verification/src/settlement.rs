//! Resolution at challenge expiry, as mathematics: which claims win, who is
//! rewarded and slashed, and what enters the confirmed ledger.

use crate::claims::{designated, dishonest_in, in_round, out_of_round};
use crate::state::{claim_in_order, claims_in_order, well_formed, RelayView};
use crate::round::{lemma_round_of_bounds, round_of, round_of_length, round_span};
use crate::bisection::{extended_samples, lemma_extended_samples};
use crate::types::{AccountId, Balance, EthHeader, Event, Instruction, ProposalView};
use vstd::arithmetic::power2::{lemma2_to64, lemma_pow2_strictly_increases, lemma_pow2_unfold, pow2};
use vstd::prelude::*;

verus! {

/// How the resolution of one round of one game ended.
#[derive(Clone, Copy, Debug, PartialEq, Eq, Structural)]
pub enum Verdict {
    /// Nothing was due: the game has no such round, or the round has no claim.
    Idle,
    /// Several claims compete: the game's samples were grown for the next round.
    Escalated,
    /// A single claim stood: its ancestry was settled and its checkpoints confirmed.
    Finalized,
    /// A claim points at a claim that is not there. Settling stopped at that
    /// level; the levels settled before it stay settled.
    ProtocolIntegrityViolation,
}

/// What the resolution of one round of one game asks of the outside world.
#[derive(Debug, PartialEq, Eq)]
pub struct Settlement {
    pub verdict: Verdict,
    /// Orders to the bond ledger, in the order in which they are to be carried out.
    pub instructions: Vec<Instruction>,
    /// Announcements, in order.
    pub events: Vec<Event>,
}

/// A settlement as a mathematical value.
pub struct SettlementView {
    pub verdict: Verdict,
    pub instructions: Seq<Instruction>,
    pub events: Seq<Event>,
}

impl View for Settlement {
    type V = SettlementView;

    open spec fn view(&self) -> SettlementView {
        SettlementView { verdict: self.verdict, instructions: self.instructions@, events: self.events@ }
    }
}

/// The views of a list of settlements, in order.
pub open spec fn settlement_views(list: Seq<Settlement>) -> Seq<SettlementView> {
    list.map_values(|s: Settlement| s@)
}

/// A settlement that asks for nothing.
pub open spec fn quiet(verdict: Verdict) -> SettlementView {
    SettlementView { verdict, instructions: Seq::empty(), events: Seq::empty() }
}

/// How many of a game's samples the round `round` answers: all of them while
/// the game is in that round, the first `2^(round - 1)` once it has moved on,
/// and none while the game has not reached the round.
pub open spec fn answered_count(len: nat, round: u32) -> Option<nat> {
    if round == 0 || len == 0 {
        None
    } else if round_of(len) == round {
        Some(len)
    } else if round_of(len) > round {
        Some(round_span(round as nat))
    } else {
        None
    }
}

/// Whether the later ledger holds every checkpoint of the earlier one, unchanged.
pub open spec fn ledger_kept(before: Map<u32, EthHeader>, after: Map<u32, EthHeader>) -> bool {
    forall|h: u32| #[trigger] before.contains_key(h) ==> after.contains_key(h) && after[h] == before[h]
}

/// One slash of the bond for each of the claims.
pub open spec fn slashes(liars: Seq<ProposalView>, bond: u32) -> Seq<Instruction> {
    liars.map_values(|l: ProposalView| Instruction::Slash(l.relayer, bond as Balance))
}

/// The checkpoints that a claim added, each with the claimant who supplied it.
pub open spec fn carried(p: ProposalView) -> Seq<(EthHeader, AccountId)> {
    p.headers.map_values(|h: EthHeader| (h, p.relayer))
}

/// The outcome of settling the ancestry of a claim.
pub struct Walk {
    /// The claims that are left.
    pub proposals: Map<u32, Seq<ProposalView>>,
    /// The slashes and rewards of the levels, nearest level first.
    pub instructions: Seq<Instruction>,
    /// The checkpoints of the honest ancestors, nearest first.
    pub confirmations: Seq<(EthHeader, AccountId)>,
    /// The claimant of the first-round claim that was reached; `None` where
    /// a pointer designates no claim.
    pub root: Option<AccountId>,
}

/// `w` with instructions and confirmations put in front.
pub open spec fn prepend(
    w: Walk,
    instructions: Seq<Instruction>,
    confirmations: Seq<(EthHeader, AccountId)>,
) -> Walk {
    Walk {
        instructions: instructions + w.instructions,
        confirmations: confirmations + w.confirmations,
        ..w
    }
}

/// What one level of the ancestry orders: a slash for every claim of the
/// level that ends in other content, then the reward of the honest claimant,
/// one bond per loser.
pub open spec fn level_instructions(
    bucket: Seq<ProposalView>,
    round: int,
    tag: u32,
    honest: AccountId,
    bond: u32,
) -> Seq<Instruction> {
    let liars = bucket.filter(dishonest_in(round, tag));
    slashes(liars, bond).push(Instruction::Reward(honest, (bond * liars.len()) as Balance))
}

/// Settles the ancestry behind `pointer`, level by level down to the first
/// round. At each level the claim that the pointer designates is honest; the
/// other claims of that round under that height are slashed, the honest
/// claimant is rewarded, and all claims of that round leave the bucket.
/// `round` is the round of the level that `pointer` leads into, and `holder`
/// the claimant of the claim that holds the pointer.
pub open spec fn walk_back(
    proposals: Map<u32, Seq<ProposalView>>,
    pointer: Option<(u32, u32)>,
    round: nat,
    holder: AccountId,
    bond: u32,
) -> Walk
    decreases round,
{
    match pointer {
        None => Walk {
            proposals,
            instructions: Seq::empty(),
            confirmations: Seq::empty(),
            root: Some(holder),
        },
        Some(at) => {
            let bucket = proposals[at.0];
            let found = designated(bucket, round as int, at.1);
            if round == 0 || found is None {
                Walk {
                    proposals,
                    instructions: Seq::empty(),
                    confirmations: Seq::empty(),
                    root: None,
                }
            } else {
                let honest = found.unwrap();
                prepend(
                    walk_back(
                        proposals.insert(at.0, bucket.filter(out_of_round(round as int))),
                        honest.extend_from,
                        (round - 1) as nat,
                        honest.relayer,
                        bond,
                    ),
                    level_instructions(bucket, round as int, at.1, honest.relayer, bond),
                    carried(honest),
                )
            }
        },
    }
}

/// Enters checkpoints into the ledger, first to last. A height that the
/// ledger already holds keeps its checkpoint; each height that is new gives
/// one announcement.
pub open spec fn confirm_all(ledger: Map<u32, EthHeader>, checkpoints: Seq<(EthHeader, AccountId)>) -> (
    Map<u32, EthHeader>,
    Seq<Event>,
)
    decreases checkpoints.len(),
{
    if checkpoints.len() == 0 {
        (ledger, Seq::empty())
    } else {
        let (so_far, events) = confirm_all(ledger, checkpoints.drop_last());
        let (header, who) = checkpoints.last();
        if so_far.contains_key(header.block_height) {
            (so_far, events)
        } else {
            (
                so_far.insert(header.block_height, header),
                events.push(Event::BlockConfirmed(header.block_height, who)),
            )
        }
    }
}

/// Settles a round that a single claim won: its ancestry is settled, the
/// claimant of the first-round claim gets one bond more, and the checkpoints
/// of the winning lineage enter the ledger. Where the ancestry is broken,
/// nothing is confirmed and no such bond is paid.
pub open spec fn settle(s: RelayView, winner: ProposalView) -> (RelayView, SettlementView) {
    let w = walk_back(s.proposals, winner.extend_from, (winner.round - 1) as nat, winner.relayer, s.bond);
    match w.root {
        None => (
            RelayView { proposals: w.proposals, ..s },
            SettlementView {
                verdict: Verdict::ProtocolIntegrityViolation,
                instructions: w.instructions,
                events: Seq::empty(),
            },
        ),
        Some(root) => {
            let (ledger, events) = confirm_all(s.confirmed_blocks, carried(winner) + w.confirmations);
            (
                RelayView { proposals: w.proposals, confirmed_blocks: ledger, ..s },
                SettlementView {
                    verdict: Verdict::Finalized,
                    instructions: w.instructions.push(Instruction::Reward(root, s.bond as Balance)),
                    events,
                },
            )
        },
    }
}

/// The height of the root of trust; 0 before one was set.
pub open spec fn last_confirmed_height(s: RelayView) -> u32 {
    match s.last_confirmed_header {
        Some(h) => h.block_height,
        None => 0,
    }
}

/// Resolves one round of one game. The claims of the round are those filed
/// under the last sample that the round answers. A single claim is settled;
/// several claims grow the samples of a game that is still in that round; in
/// every other case nothing happens.
pub open spec fn resolve_one(s: RelayView, game: u32, round: u32) -> (RelayView, SettlementView) {
    let samples = s.samples[game];
    match answered_count(samples.len(), round) {
        None => (s, quiet(Verdict::Idle)),
        Some(count) => {
            let claims = s.proposals[samples[count - 1]].filter(in_round(round as int));
            if claims.len() == 1 {
                settle(s, claims.last())
            } else if claims.len() >= 2 && count == samples.len() {
                (
                    RelayView {
                        samples: s.samples.insert(
                            game,
                            extended_samples(samples, last_confirmed_height(s)),
                        ),
                        ..s
                    },
                    quiet(Verdict::Escalated),
                )
            } else {
                (s, quiet(Verdict::Idle))
            }
        },
    }
}

/// Resolves the given `(game, round)` pairs one after the other.
pub open spec fn resolve_all(s: RelayView, entries: Seq<(u32, u32)>) -> (RelayView, Seq<SettlementView>)
    decreases entries.len(),
{
    if entries.len() == 0 {
        (s, Seq::empty())
    } else {
        let (before, settled) = resolve_all(s, entries.drop_last());
        let (after, settlement) = resolve_one(before, entries.last().0, entries.last().1);
        (after, settled.push(settlement))
    }
}

/// Putting instructions in front twice is putting their concatenation in front once.
pub proof fn lemma_prepend_twice(
    w: Walk,
    a1: Seq<Instruction>,
    c1: Seq<(EthHeader, AccountId)>,
    a2: Seq<Instruction>,
    c2: Seq<(EthHeader, AccountId)>,
)
    ensures
        prepend(prepend(w, a2, c2), a1, c1) == prepend(w, a1 + a2, c1 + c2),
{
    assert(a1 + (a2 + w.instructions) =~= (a1 + a2) + w.instructions);
    assert(c1 + (c2 + w.confirmations) =~= (c1 + c2) + w.confirmations);
}

/// Entering checkpoints never removes a height from the ledger nor changes its checkpoint.
pub proof fn lemma_confirm_all_keeps_ledger(
    ledger: Map<u32, EthHeader>,
    checkpoints: Seq<(EthHeader, AccountId)>,
)
    ensures
        ledger_kept(ledger, confirm_all(ledger, checkpoints).0),
    decreases checkpoints.len(),
{
    if checkpoints.len() > 0 {
        lemma_confirm_all_keeps_ledger(ledger, checkpoints.drop_last());
    }
}

/// Resolving a round never removes a height from the confirmed ledger nor changes its checkpoint.
pub proof fn lemma_resolve_one_keeps_ledger(s: RelayView, game: u32, round: u32)
    ensures
        ledger_kept(s.confirmed_blocks, resolve_one(s, game, round).0.confirmed_blocks),
{
    let samples = s.samples[game];
    match answered_count(samples.len(), round) {
        None => {},
        Some(count) => {
            let claims = s.proposals[samples[count - 1]].filter(in_round(round as int));
            if claims.len() == 1 {
                let winner = claims.last();
                let w = walk_back(
                    s.proposals,
                    winner.extend_from,
                    (winner.round - 1) as nat,
                    winner.relayer,
                    s.bond,
                );
                lemma_confirm_all_keeps_ledger(s.confirmed_blocks, carried(winner) + w.confirmations);
            }
        },
    }
}

/// Resolving rounds leaves the timers and the root of trust as they were.
pub proof fn lemma_resolve_all_frame(s: RelayView, entries: Seq<(u32, u32)>)
    ensures
        resolve_all(s, entries).0.challenge_times == s.challenge_times,
        resolve_all(s, entries).0.last_confirmed_header == s.last_confirmed_header,
        resolve_all(s, entries).0.bond == s.bond,
        resolve_all(s, entries).1.len() == entries.len(),
        ledger_kept(s.confirmed_blocks, resolve_all(s, entries).0.confirmed_blocks),
    decreases entries.len(),
{
    if entries.len() > 0 {
        lemma_resolve_all_frame(s, entries.drop_last());
        let before = resolve_all(s, entries.drop_last()).0;
        lemma_resolve_one_keeps_ledger(before, entries.last().0, entries.last().1);
    }
}

/// The sum of what a list of instructions takes from bonds.
pub open spec fn total_slashed(instructions: Seq<Instruction>) -> int
    decreases instructions.len(),
{
    if instructions.len() == 0 {
        0
    } else {
        total_slashed(instructions.drop_last()) + match instructions.last() {
            Instruction::Slash(_, amount) => amount as int,
            Instruction::Reward(_, _) => 0,
        }
    }
}

/// The sum of what a list of instructions pays out.
pub open spec fn total_rewarded(instructions: Seq<Instruction>) -> int
    decreases instructions.len(),
{
    if instructions.len() == 0 {
        0
    } else {
        total_rewarded(instructions.drop_last()) + match instructions.last() {
            Instruction::Reward(_, amount) => amount as int,
            Instruction::Slash(_, _) => 0,
        }
    }
}

/// Both sums of a concatenation are the sums of the sums of its parts.
pub proof fn lemma_totals_add(a: Seq<Instruction>, b: Seq<Instruction>)
    ensures
        total_slashed(a + b) == total_slashed(a) + total_slashed(b),
        total_rewarded(a + b) == total_rewarded(a) + total_rewarded(b),
    decreases b.len(),
{
    if b.len() == 0 {
        assert(a + b =~= a);
    } else {
        lemma_totals_add(a, b.drop_last());
        assert((a + b).drop_last() =~= a + b.drop_last());
    }
}

/// The slashes of a list of claims take one bond each and pay nothing.
pub proof fn lemma_slashes_total(liars: Seq<ProposalView>, bond: u32)
    ensures
        total_slashed(slashes(liars, bond)) == bond * liars.len(),
        total_rewarded(slashes(liars, bond)) == 0,
    decreases liars.len(),
{
    if liars.len() > 0 {
        lemma_slashes_total(liars.drop_last(), bond);
        assert(slashes(liars, bond).drop_last() =~= slashes(liars.drop_last(), bond));
        assert(slashes(liars, bond).last() == Instruction::Slash(liars.last().relayer, bond as Balance));
        assert(bond * liars.len() == bond * (liars.len() - 1) + bond) by (nonlinear_arith);
    } else {
        assert(bond * liars.len() == 0) by (nonlinear_arith)
            requires
                liars.len() == 0,
        ;
    }
}

/// A level pays the honest claimant exactly what it takes from the others.
pub proof fn lemma_level_is_balanced(
    bucket: Seq<ProposalView>,
    round: int,
    tag: u32,
    honest: AccountId,
    bond: u32,
)
    requires
        bucket.len() <= usize::MAX,
    ensures
        total_rewarded(level_instructions(bucket, round, tag, honest, bond)) == total_slashed(
            level_instructions(bucket, round, tag, honest, bond),
        ),
{
    let liars = bucket.filter(dishonest_in(round, tag));
    bucket.lemma_filter_len(dishonest_in(round, tag));
    lemma_slashes_total(liars, bond);
    assert(bond * liars.len() <= u128::MAX) by (nonlinear_arith)
        requires
            bond <= 0xffff_ffff,
            liars.len() <= 0xffff_ffff_ffff_ffff,
    ;
    let all = level_instructions(bucket, round, tag, honest, bond);
    assert(all.drop_last() =~= slashes(liars, bond));
}

/// Whether no bucket holds more claims than a machine can count.
pub open spec fn buckets_countable(proposals: Map<u32, Seq<ProposalView>>) -> bool {
    forall|h: u32| (#[trigger] proposals[h]).len() <= usize::MAX
}

/// Settling an ancestry pays the honest claimants exactly what it takes from the others.
pub proof fn lemma_walk_back_is_balanced(
    proposals: Map<u32, Seq<ProposalView>>,
    pointer: Option<(u32, u32)>,
    round: nat,
    holder: AccountId,
    bond: u32,
)
    requires
        buckets_countable(proposals),
    ensures
        total_rewarded(walk_back(proposals, pointer, round, holder, bond).instructions)
            == total_slashed(walk_back(proposals, pointer, round, holder, bond).instructions),
    decreases round,
{
    match pointer {
        None => {},
        Some(at) => {
            let bucket = proposals[at.0];
            let found = designated(bucket, round as int, at.1);
            if round != 0 && found is Some {
                let kept = bucket.filter(out_of_round(round as int));
                bucket.lemma_filter_len(out_of_round(round as int));
                let next = proposals.insert(at.0, kept);
                assert forall|h: u32| (#[trigger] next[h]).len() <= usize::MAX by {
                    if h != at.0 {
                        assert(next[h] == proposals[h]);
                    }
                }
                let honest = found.unwrap();
                lemma_walk_back_is_balanced(
                    next,
                    honest.extend_from,
                    (round - 1) as nat,
                    honest.relayer,
                    bond,
                );
                lemma_level_is_balanced(bucket, round as int, at.1, honest.relayer, bond);
                lemma_totals_add(
                    level_instructions(bucket, round as int, at.1, honest.relayer, bond),
                    walk_back(next, honest.extend_from, (round - 1) as nat, honest.relayer, bond).instructions,
                );
            }
        },
    }
}

/// Settling an ancestry only ever takes claims away: every claim that is
/// left was there before, under the same height.
pub proof fn lemma_walk_back_keeps_order(
    proposals: Map<u32, Seq<ProposalView>>,
    pointer: Option<(u32, u32)>,
    round: nat,
    holder: AccountId,
    bond: u32,
)
    requires
        claims_in_order(proposals),
        forall|h: u32| #[trigger] proposals.contains_key(h),
    ensures
        claims_in_order(walk_back(proposals, pointer, round, holder, bond).proposals),
        forall|h: u32|
            #[trigger] walk_back(proposals, pointer, round, holder, bond).proposals.contains_key(h),
    decreases round,
{
    match pointer {
        None => {},
        Some(at) => {
            let bucket = proposals[at.0];
            let found = designated(bucket, round as int, at.1);
            if round != 0 && found is Some {
                let kept = bucket.filter(out_of_round(round as int));
                let next = proposals.insert(at.0, kept);
                assert forall|h: u32, i: int| 0 <= i < next[h].len() implies claim_in_order(
                    #[trigger] next[h][i],
                    h,
                ) by {
                    if h == at.0 {
                        assert(kept.contains(kept[i]));
                        bucket.lemma_filter_contains_rev(out_of_round(round as int), kept[i]);
                        let k = choose|k: int| 0 <= k < bucket.len() && bucket[k] == kept[i];
                        assert(claim_in_order(proposals[h][k], h));
                    } else {
                        assert(next[h][i] == proposals[h][i]);
                    }
                }
                lemma_walk_back_keeps_order(
                    next,
                    found.unwrap().extend_from,
                    (round - 1) as nat,
                    found.unwrap().relayer,
                    bond,
                );
            }
        },
    }
}

/// Resolving a round keeps the engine's state in order.
pub proof fn lemma_resolve_one_keeps_well_formed(s: RelayView, game: u32, round: u32)
    requires
        well_formed(s),
    ensures
        well_formed(resolve_one(s, game, round).0),
{
    let samples = s.samples[game];
    match answered_count(samples.len(), round) {
        None => {},
        Some(count) => {
            let claims = s.proposals[samples[count - 1]].filter(in_round(round as int));
            if claims.len() == 1 {
                let winner = claims.last();
                lemma_walk_back_keeps_order(
                    s.proposals,
                    winner.extend_from,
                    (winner.round - 1) as nat,
                    winner.relayer,
                    s.bond,
                );
            } else if claims.len() >= 2 && count == samples.len() {
                let after = resolve_one(s, game, round).0;
                lemma_extended_samples(samples, last_confirmed_height(s));
                assert forall|g: u32| (#[trigger] after.samples[g]).len() > 0 implies after.samples[g][0]
                    == g by {
                    if g == game {
                        assert(after.samples[g].take(samples.len() as int)[0] == samples[0]);
                    } else {
                        assert(after.samples[g] == s.samples[g]);
                    }
                }
            }
        },
    }
}

/// Resolving rounds one after the other keeps the engine's state in order.
pub proof fn lemma_resolve_all_keeps_well_formed(s: RelayView, entries: Seq<(u32, u32)>)
    requires
        well_formed(s),
    ensures
        well_formed(resolve_all(s, entries).0),
    decreases entries.len(),
{
    if entries.len() > 0 {
        lemma_resolve_all_keeps_well_formed(s, entries.drop_last());
        lemma_resolve_one_keeps_well_formed(
            resolve_all(s, entries.drop_last()).0,
            entries.last().0,
            entries.last().1,
        );
    }
}

/// Computes `2^k` where that fits below `bound`.
pub fn power_of_two(k: u32, bound: usize) -> (p: usize)
    requires
        pow2(k as nat) <= bound,
    ensures
        p == pow2(k as nat),
{
    let mut p: usize = 1;
    let mut i: u32 = 0;
    proof {
        lemma2_to64();
    }
    while i < k
        invariant
            i <= k,
            p == pow2(i as nat),
            pow2(k as nat) <= bound,
        decreases k - i,
    {
        proof {
            lemma_pow2_unfold((i + 1) as nat);
            if i + 1 < k {
                lemma_pow2_strictly_increases((i + 1) as nat, k as nat);
            }
        }
        p = p * 2;
        i = i + 1;
    }
    p
}

/// Computes `answered_count`.
pub fn answered_count_of(len: usize, round: u32) -> (count: Option<usize>)
    ensures
        match answered_count(len as nat, round) {
            Some(c) => count == Some(c as usize) && 1 <= c <= len,
            None => count is None,
        },
{
    if round == 0 || len == 0 {
        return None;
    }
    let reached = round_of_length(len);
    if reached == round {
        Some(len)
    } else if reached > round {
        proof {
            lemma_round_of_bounds(len as nat);
            lemma2_to64();
            vstd::arithmetic::power2::lemma_pow2_pos((round - 1) as nat);
            if round - 1 < reached - 2 {
                lemma_pow2_strictly_increases((round - 1) as nat, (reached - 2) as nat);
            }
        }
        Some(power_of_two(round - 1, len))
    } else {
        None
    }
}

} // verus!
