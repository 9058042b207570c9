//! The game engine: the store of games, claims, timers and confirmed
//! checkpoints, and the operations that the host chain drives it with.

use crate::claims::{
    claims_out_of_round, count_in_round, designated, dishonest_claims, find_designated,
    find_last_in_round, out_of_round, same_prefix,
};
use crate::round::{previous_count_of, round_of, round_of_length};
use crate::bisection::update_samples;
use crate::state::{
    after_submit, extends_some_claim, heights_of, initial_state, is_antecedent, joined,
    lemma_submit_keeps_well_formed, lineage, submit_event, submit_verdict, well_formed, RelayView,
    BOND_VALUE, CHANGE_WAITING_BLOCKS,
};
use crate::settlement::{
    answered_count_of, carried, confirm_all, last_confirmed_height, ledger_kept,
    lemma_prepend_twice, lemma_resolve_all_frame, lemma_resolve_all_keeps_well_formed,
    lemma_resolve_one_keeps_ledger, lemma_resolve_one_keeps_well_formed,
    level_instructions, prepend, resolve_all, resolve_one, settle, settlement_views, slashes,
    walk_back, Settlement, SettlementView, Verdict,
};
use crate::types::{
    copy_of, views, AccountId, Balance, BlockNumber, Error, EthHeader, Event, Instruction,
    Proposal, ProposalView,
};
use std::collections::HashMap;
use vstd::prelude::*;

verus! {

broadcast use vstd::std_specs::hash::group_hash_axioms;

/// The store of the dispute games.
pub struct Module {
    bond: u32,
    last_confirmed_header: Option<EthHeader>,
    confirmed_blocks: HashMap<u32, EthHeader>,
    proposal_map: HashMap<u32, Vec<Proposal>>,
    challenge_times: HashMap<u64, Vec<(u32, u32)>>,
    samples: HashMap<u32, Vec<u32>>,
}

/// The claims that the table holds under a height; none where the height has no entry.
spec fn bucket_view(m: Map<u32, Vec<Proposal>>, h: u32) -> Seq<ProposalView> {
    if m.contains_key(h) {
        views(m[h]@)
    } else {
        Seq::empty()
    }
}

/// The list that a table holds under a key; empty where the key has no entry.
spec fn list_view<K, T>(m: Map<K, Vec<T>>, k: K) -> Seq<T> {
    if m.contains_key(k) {
        m[k]@
    } else {
        Seq::empty()
    }
}

impl View for Module {
    type V = RelayView;

    closed spec fn view(&self) -> RelayView {
        RelayView {
            bond: self.bond,
            last_confirmed_header: self.last_confirmed_header,
            confirmed_blocks: self.confirmed_blocks@,
            proposals: Map::total(|h: u32| bucket_view(self.proposal_map@, h)),
            challenge_times: Map::total(|b: u64| list_view(self.challenge_times@, b)),
            samples: Map::total(|g: u32| list_view(self.samples@, g)),
        }
    }
}

/// Whether the samples are exactly the heights of the checkpoints.
fn heights_match(samples: &Vec<u32>, headers: &Vec<EthHeader>) -> (same: bool)
    ensures
        same == (samples@ == heights_of(headers@)),
{
    if samples.len() != headers.len() {
        return false;
    }
    let mut i: usize = 0;
    while i < samples.len()
        invariant
            i <= samples.len(),
            samples.len() == headers.len(),
            forall|j: int| 0 <= j < i ==> samples@[j] == headers@[j].block_height,
        decreases samples.len() - i,
    {
        if samples[i] != headers[i].block_height {
            proof {
                assert(heights_of(headers@)[i as int] != samples@[i as int]);
            }
            return false;
        }
        i = i + 1;
    }
    proof {
        assert(samples@ =~= heights_of(headers@));
    }
    true
}

impl Module {
    /// An engine with the default bond that has seen nothing yet.
    pub fn new() -> (module: Module)
        ensures
            module@ == initial_state(BOND_VALUE),
            well_formed(module@),
    {
        Module::with_bond(BOND_VALUE)
    }

    /// An engine with the given bond per level that has seen nothing yet.
    pub fn with_bond(bond: u32) -> (module: Module)
        ensures
            module@ == initial_state(bond),
            well_formed(module@),
    {
        let module = Module {
            bond,
            last_confirmed_header: None,
            confirmed_blocks: HashMap::new(),
            proposal_map: HashMap::new(),
            challenge_times: HashMap::new(),
            samples: HashMap::new(),
        };
        proof {
            assert(module@.proposals =~= initial_state(bond).proposals);
            assert(module@.challenge_times =~= initial_state(bond).challenge_times);
            assert(module@.samples =~= initial_state(bond).samples);
        }
        module
    }

    /// The root of trust, once it was set.
    pub fn last_comfirm_header(&self) -> (header: Option<EthHeader>)
        ensures
            header == self@.last_confirmed_header,
    {
        self.last_confirmed_header
    }

    /// The canonical checkpoint of a height, if the height is confirmed.
    pub fn confrimed_blocks(&self, block_height: u32) -> (header: Option<EthHeader>)
        ensures
            header == if self@.confirmed_blocks.contains_key(block_height) {
                Some(self@.confirmed_blocks[block_height])
            } else {
                None
            },
    {
        match self.confirmed_blocks.get(&block_height) {
            Some(h) => Some(*h),
            None => None,
        }
    }

    /// The heights that a game asks for; empty for a game that was never opened.
    pub fn get_samples(&self, game: u32) -> (samples: Vec<u32>)
        ensures
            samples@ == self@.samples[game],
    {
        match self.samples.get(&game) {
            Some(s) => copy_of(s),
            None => Vec::new(),
        }
    }

    /// The `(game, round)` pairs due at a host height.
    pub fn challenge_time(&self, block: BlockNumber) -> (due: Vec<(u32, u32)>)
        ensures
            due@ == self@.challenge_times[block],
    {
        match self.challenge_times.get(&block) {
            Some(list) => copy_of(list),
            None => Vec::new(),
        }
    }

    /// The claims filed under a height, oldest first.
    pub fn proposal_map(&self, block_height: u32) -> (claims: Vec<Proposal>)
        ensures
            views(claims@) == self@.proposals[block_height],
    {
        let mut claims: Vec<Proposal> = Vec::new();
        match self.proposal_map.get(&block_height) {
            Some(bucket) => {
                let mut i: usize = 0;
                proof {
                    assert(views(claims@) =~= views(bucket@).take(0));
                }
                while i < bucket.len()
                    invariant
                        i <= bucket.len(),
                        views(claims@) == views(bucket@).take(i as int),
                    decreases bucket.len() - i,
                {
                    let ghost before = claims@;
                    let copy = bucket[i].clone();
                    claims.push(copy);
                    proof {
                        assert(views(claims@) =~= views(before).push(bucket@[i as int]@));
                        assert(views(bucket@).take(i + 1) =~= views(bucket@).take(i as int).push(
                            bucket@[i as int]@,
                        ));
                    }
                    i = i + 1;
                }
                proof {
                    assert(views(bucket@).take(i as int) =~= views(bucket@));
                }
            },
            None => {
                assert(views(claims@) =~= Seq::<ProposalView>::empty());
            },
        }
        claims
    }

    /// Stores the samples of a game.
    fn put_samples(&mut self, game: u32, samples: Vec<u32>)
        ensures
            final(self)@ == (RelayView {
                samples: old(self)@.samples.insert(game, samples@),
                ..old(self)@
            }),
    {
        self.samples.insert(game, samples);
        proof {
            assert(final(self)@.samples =~= old(self)@.samples.insert(game, samples@));
        }
    }

    /// Stores the claims of a height.
    fn put_bucket(&mut self, block_height: u32, bucket: Vec<Proposal>)
        ensures
            final(self)@ == (RelayView {
                proposals: old(self)@.proposals.insert(block_height, views(bucket@)),
                ..old(self)@
            }),
    {
        self.proposal_map.insert(block_height, bucket);
        proof {
            assert(final(self)@.proposals =~= old(self)@.proposals.insert(
                block_height,
                views(bucket@),
            ));
        }
    }

    /// Files one more claim under a height.
    fn push_claim(&mut self, block_height: u32, claim: Proposal)
        ensures
            final(self)@ == (RelayView {
                proposals: old(self)@.proposals.insert(
                    block_height,
                    old(self)@.proposals[block_height].push(claim@),
                ),
                ..old(self)@
            }),
    {
        let mut bucket = match self.proposal_map.remove(&block_height) {
            Some(b) => b,
            None => Vec::new(),
        };
        let ghost before = bucket@;
        proof {
            assert(views(before) =~= old(self)@.proposals[block_height]);
        }
        bucket.push(claim);
        proof {
            assert(views(bucket@) =~= views(before).push(claim@));
        }
        self.proposal_map.insert(block_height, bucket);
        proof {
            assert(final(self)@.proposals =~= old(self)@.proposals.insert(
                block_height,
                old(self)@.proposals[block_height].push(claim@),
            ));
        }
    }

    /// Schedules one more `(game, round)` pair at a host height.
    fn push_timer(&mut self, due: BlockNumber, entry: (u32, u32))
        ensures
            final(self)@ == (RelayView {
                challenge_times: old(self)@.challenge_times.insert(
                    due,
                    old(self)@.challenge_times[due].push(entry),
                ),
                ..old(self)@
            }),
    {
        let mut list = match self.challenge_times.remove(&due) {
            Some(l) => l,
            None => Vec::new(),
        };
        proof {
            assert(list@ =~= old(self)@.challenge_times[due]);
        }
        list.push(entry);
        self.challenge_times.insert(due, list);
        proof {
            assert(final(self)@.challenge_times =~= old(self)@.challenge_times.insert(
                due,
                old(self)@.challenge_times[due].push(entry),
            ));
        }
    }

    /// Takes the pairs that are due at a host height off the schedule.
    fn take_timer(&mut self, due: BlockNumber) -> (list: Vec<(u32, u32)>)
        ensures
            list@ == old(self)@.challenge_times[due],
            final(self)@ == (RelayView {
                challenge_times: old(self)@.challenge_times.insert(due, Seq::empty()),
                ..old(self)@
            }),
    {
        let list = match self.challenge_times.remove(&due) {
            Some(l) => l,
            None => Vec::new(),
        };
        proof {
            assert(list@ =~= old(self)@.challenge_times[due]);
            assert(final(self)@.challenge_times =~= old(self)@.challenge_times.insert(
                due,
                Seq::empty(),
            ));
        }
        list
    }

    /// Replaces the heights that a game asks for. The game is the one named
    /// by the first height. A list of more than one height must continue the
    /// list that the game already has.
    pub fn set_samples(&mut self, new_samples: &Vec<u32>)
        requires
            new_samples.len() >= 1,
            new_samples.len() > 1 ==> {
                &&& old(self)@.samples[new_samples[0]].len() > 0
                &&& old(self)@.samples[new_samples[0]].is_prefix_of(new_samples@)
            },
        ensures
            final(self)@ == (RelayView {
                samples: old(self)@.samples.insert(new_samples[0], new_samples@),
                ..old(self)@
            }),
            well_formed(old(self)@) ==> well_formed(final(self)@),
    {
        let copy = copy_of(new_samples);
        self.put_samples(new_samples[0], copy);
    }

    /// Every checkpoint that a stored claim stands for, from the first round
    /// on; `None` where the chain of claims behind it is broken.
    pub fn get_all_headers_from(&self, proposal: &Proposal) -> (all: Option<Vec<EthHeader>>)
        ensures
            match lineage(self@.proposals, proposal@, proposal.round as nat) {
                Some(l) => all is Some && all.unwrap()@ == l,
                None => all is None,
            },
    {
        let mut cur: &Proposal = proposal;
        let mut tail: Vec<EthHeader> = Vec::new();
        let mut depth: u32 = proposal.round;
        proof {
            assert(lineage(self@.proposals, proposal@, proposal.round as nat) =~= joined(
                lineage(self@.proposals, cur@, depth as nat),
                tail@,
            )) by {
                let l = lineage(self@.proposals, cur@, depth as nat);
                if l is Some {
                    assert(l.unwrap() + tail@ =~= l.unwrap());
                }
            }
        }
        loop
            invariant
                lineage(self@.proposals, proposal@, proposal.round as nat) == joined(
                    lineage(self@.proposals, cur@, depth as nat),
                    tail@,
                ),
            decreases depth,
        {
            match cur.extend_from {
                None => {
                    let mut all = copy_of(&cur.headers);
                    all.append(&mut tail);
                    return Some(all);
                },
                Some(pointer) => {
                    if depth == 0 || cur.round == 0 {
                        return None;
                    }
                    let bucket = match self.proposal_map.get(&pointer.0) {
                        Some(b) => b,
                        None => {
                            proof {
                                reveal(Seq::filter);
                            }
                            return None;
                        },
                    };
                    match find_designated(bucket, cur.round - 1, pointer.1) {
                        None => {
                            return None;
                        },
                        Some(i) => {
                            let mut longer = copy_of(&cur.headers);
                            let ghost old_tail = tail@;
                            longer.append(&mut tail);
                            proof {
                                let up = lineage(
                                    self@.proposals,
                                    bucket@[i as int]@,
                                    (depth - 1) as nat,
                                );
                                if up is Some {
                                    assert((up.unwrap() + cur@.headers) + old_tail =~= up.unwrap()
                                        + longer@);
                                }
                            }
                            tail = longer;
                            cur = &bucket[i];
                            depth = depth - 1;
                        },
                    }
                },
            }
        }
    }

    /// Whether a claim of the round before stands for the leading checkpoints of a submission.
    fn has_antecedent(&self, headers: &Vec<EthHeader>, prev: usize, round: u32) -> (found: bool)
        requires
            1 <= prev <= headers.len(),
            round >= 1,
        ensures
            found == extends_some_claim(self@.proposals, headers@, prev as int, round as int),
    {
        let anchor = headers[prev - 1].block_height;
        let bucket = match self.proposal_map.get(&anchor) {
            Some(b) => b,
            None => {
                return false;
            },
        };
        let mut i: usize = 0;
        while i < bucket.len()
            invariant
                i <= bucket.len(),
                1 <= prev <= headers.len(),
                round >= 1,
                self@.proposals[anchor] == views(bucket@),
                anchor == headers@[prev - 1].block_height,
                forall|j: int|
                    0 <= j < i ==> !is_antecedent(
                        self@.proposals,
                        #[trigger] views(bucket@)[j],
                        headers@,
                        prev as int,
                        round as int,
                    ),
            decreases bucket.len() - i,
        {
            if bucket[i].round == round - 1 {
                match self.get_all_headers_from(&bucket[i]) {
                    Some(all) => {
                        if all.len() == prev && same_prefix(&all, headers, prev) {
                            proof {
                                assert(all@ =~= all@.take(prev as int));
                                assert(is_antecedent(
                                    self@.proposals,
                                    views(bucket@)[i as int],
                                    headers@,
                                    prev as int,
                                    round as int,
                                ));
                            }
                            return true;
                        }
                        proof {
                            if all.len() == prev {
                                assert(all@ =~= all@.take(prev as int));
                            }
                        }
                    },
                    None => {},
                }
            }
            i = i + 1;
        }
        false
    }

    /// Files a claim: the checkpoints of every sample of the game's current
    /// round, of which the engine keeps those that the round added.
    ///
    /// A claim of the first round opens the game if need be. A later claim
    /// must answer exactly the game's samples and continue a claim of the
    /// round before. The first claim of a round under its last height starts
    /// the challenge window. A claim that is turned down changes nothing.
    pub fn submit(&mut self, who: AccountId, headers: Vec<EthHeader>, now: BlockNumber) -> (result:
        Result<Event, Error>)
        requires
            now + CHANGE_WAITING_BLOCKS <= u64::MAX,
        ensures
            match submit_verdict(old(self)@, headers@) {
                Some(e) => result == Err::<Event, Error>(e) && final(self)@ == old(self)@,
                None => result == Ok::<Event, Error>(submit_event(headers@)) && final(self)@
                    == after_submit(old(self)@, who, headers@, now),
            },
            final(self)@.confirmed_blocks == old(self)@.confirmed_blocks,
            well_formed(old(self)@) ==> well_formed(final(self)@),
    {
        let n = headers.len();
        proof {
            assert(headers@.len() == n);
            if well_formed(old(self)@) && submit_verdict(old(self)@, headers@) is None {
                lemma_submit_keeps_well_formed(old(self)@, who, headers@, now);
            }
        }
        if n == 0 {
            return Err(Error::HeaderInvalid);
        }
        let current_round = round_of_length(n);
        let game = headers[0].block_height;
        let kept: Vec<EthHeader>;
        let extend_from: Option<(u32, u32)>;
        if current_round > 1 {
            let complies = match self.samples.get(&game) {
                Some(s) => heights_match(s, &headers),
                None => {
                    assert(heights_of(headers@).len() == n);
                    false
                },
            };
            if !complies {
                return Err(Error::NotComplyWithSamples);
            }
            let prev = previous_count_of(n);
            if !self.has_antecedent(&headers, prev, current_round) {
                return Err(Error::NotExtendFromError);
            }
            let anchor = headers[prev - 1];
            extend_from = Some((anchor.block_height, anchor.lie));
            let mut added: Vec<EthHeader> = Vec::new();
            let mut i: usize = prev;
            while i < n
                invariant
                    prev <= i <= n,
                    n == headers.len(),
                    added@ == headers@.subrange(prev as int, i as int),
                decreases n - i,
            {
                added.push(headers[i]);
                proof {
                    assert(headers@.subrange(prev as int, i + 1) =~= headers@.subrange(
                        prev as int,
                        i as int,
                    ).push(headers@[i as int]));
                }
                i = i + 1;
            }
            proof {
                assert(headers@.subrange(prev as int, n as int) =~= headers@.skip(prev as int));
            }
            kept = added;
        } else {
            let fresh = match self.samples.get(&game) {
                Some(s) => s.len() == 0,
                None => true,
            };
            if fresh {
                let mut first: Vec<u32> = Vec::new();
                first.push(game);
                self.put_samples(game, first);
                proof {
                    assert(seq![game] =~= Seq::<u32>::empty().push(game));
                }
            }
            extend_from = None;
            kept = headers;
        }
        let first_header_block_height = kept[0].block_height;
        let last_header_block_height = kept[kept.len() - 1].block_height;
        let filed = match self.proposal_map.get(&last_header_block_height) {
            Some(bucket) => count_in_round(bucket, current_round),
            None => {
                proof {
                    reveal(Seq::filter);
                }
                0
            },
        };
        if filed == 0 {
            self.push_timer(now + CHANGE_WAITING_BLOCKS, (game, current_round));
        }
        self.push_claim(
            last_header_block_height,
            Proposal { headers: kept, round: current_round, relayer: who, extend_from },
        );
        Ok(Event::SubmitHeaders(first_header_block_height, last_header_block_height, current_round))
    }

    /// The height of the root of trust; 0 before one was set.
    fn last_confirmed_block_height(&self) -> (height: u32)
        ensures
            height == last_confirmed_height(self@),
    {
        match self.last_confirmed_header {
            Some(h) => h.block_height,
            None => 0,
        }
    }

    /// Settles one level of an ancestry: slashes the claims that end in other
    /// content, rewards the claim that the pointer designates, and takes the
    /// claims of the round out of the bucket. Returns the pointer and the
    /// claimant of the honest claim, or `None`, with nothing changed, where the
    /// pointer designates no claim.
    fn settle_level(
        &mut self,
        at: (u32, u32),
        round: u32,
        instructions: &mut Vec<Instruction>,
        confirmations: &mut Vec<(EthHeader, AccountId)>,
    ) -> (honest: Option<(Option<(u32, u32)>, AccountId)>)
        ensures
            round == 0 || designated(old(self)@.proposals[at.0], round as int, at.1) is None ==> {
                &&& honest is None
                &&& final(self)@ == old(self)@
                &&& final(instructions)@ == old(instructions)@
                &&& final(confirmations)@ == old(confirmations)@
            },
            round > 0 && designated(old(self)@.proposals[at.0], round as int, at.1) is Some ==> {
                let bucket = old(self)@.proposals[at.0];
                let q = designated(bucket, round as int, at.1).unwrap();
                &&& honest == Some((q.extend_from, q.relayer))
                &&& final(self)@ == (RelayView {
                    proposals: old(self)@.proposals.insert(
                        at.0,
                        bucket.filter(out_of_round(round as int)),
                    ),
                    ..old(self)@
                })
                &&& final(instructions)@ == old(instructions)@ + level_instructions(
                    bucket,
                    round as int,
                    at.1,
                    q.relayer,
                    old(self)@.bond,
                )
                &&& final(confirmations)@ == old(confirmations)@ + carried(q)
            },
    {
        if round == 0 {
            return None;
        }
        let bucket = match self.proposal_map.get(&at.0) {
            Some(b) => b,
            None => {
                proof {
                    reveal(Seq::filter);
                }
                return None;
            },
        };
        let i = match find_designated(bucket, round, at.1) {
            Some(i) => i,
            None => {
                return None;
            },
        };
        let pointer = bucket[i].extend_from;
        let relayer = bucket[i].relayer;
        let ghost q = bucket@[i as int]@;
        let ghost before_instructions = instructions@;
        let ghost before_confirmations = confirmations@;
        let mut c: usize = 0;
        while c < bucket[i].headers.len()
            invariant
                i < bucket.len(),
                q == bucket@[i as int]@,
                relayer == q.relayer,
                c <= bucket[i as int].headers.len(),
                confirmations@ == before_confirmations + carried(q).take(c as int),
            decreases bucket[i as int].headers.len() - c,
        {
            confirmations.push((bucket[i].headers[c], relayer));
            proof {
                assert(carried(q).take(c + 1) =~= carried(q).take(c as int).push(
                    (q.headers[c as int], relayer),
                ));
                assert(confirmations@ =~= before_confirmations + carried(q).take(c + 1));
            }
            c = c + 1;
        }
        proof {
            assert(carried(q).take(c as int) =~= carried(q));
        }
        let liars = dishonest_claims(bucket, round, at.1);
        let rest = claims_out_of_round(bucket, round);
        let ghost lost = views(liars@);
        let mut j: usize = 0;
        while j < liars.len()
            invariant
                j <= liars.len(),
                lost == views(liars@),
                instructions@ == before_instructions + slashes(lost, self.bond).take(j as int),
            decreases liars.len() - j,
        {
            instructions.push(Instruction::Slash(liars[j].relayer, self.bond as Balance));
            proof {
                assert(slashes(lost, self.bond).take(j + 1) =~= slashes(lost, self.bond).take(
                    j as int,
                ).push(Instruction::Slash(liars@[j as int].relayer, self.bond as Balance)));
                assert(instructions@ =~= before_instructions + slashes(lost, self.bond).take(j + 1));
            }
            j = j + 1;
        }
        proof {
            assert(slashes(lost, self.bond).take(j as int) =~= slashes(lost, self.bond));
            assert(self.bond * liars.len() <= u128::MAX) by (nonlinear_arith)
                requires
                    self.bond <= 0xffff_ffff,
                    liars.len() <= 0xffff_ffff_ffff_ffff,
            ;
        }
        let reward: Balance = self.bond as Balance * liars.len() as Balance;
        instructions.push(Instruction::Reward(relayer, reward));
        proof {
            assert(instructions@ =~= before_instructions + level_instructions(
                old(self)@.proposals[at.0],
                round as int,
                at.1,
                relayer,
                self.bond,
            ));
        }
        self.put_bucket(at.0, rest);
        Some((pointer, relayer))
    }

    /// Enters checkpoints into the confirmed ledger, skipping the heights that it holds.
    fn confirm_checkpoints(&mut self, checkpoints: &Vec<(EthHeader, AccountId)>) -> (events: Vec<Event>)
        ensures
            final(self)@ == (RelayView {
                confirmed_blocks: confirm_all(old(self)@.confirmed_blocks, checkpoints@).0,
                ..old(self)@
            }),
            events@ == confirm_all(old(self)@.confirmed_blocks, checkpoints@).1,
    {
        let mut events: Vec<Event> = Vec::new();
        let mut i: usize = 0;
        while i < checkpoints.len()
            invariant
                i <= checkpoints.len(),
                self@ == (RelayView {
                    confirmed_blocks: confirm_all(
                        old(self)@.confirmed_blocks,
                        checkpoints@.take(i as int),
                    ).0,
                    ..old(self)@
                }),
                events@ == confirm_all(old(self)@.confirmed_blocks, checkpoints@.take(i as int)).1,
            decreases checkpoints.len() - i,
        {
            proof {
                assert(checkpoints@.take(i + 1).drop_last() =~= checkpoints@.take(i as int));
            }
            let header = checkpoints[i].0;
            let who = checkpoints[i].1;
            if !self.confirmed_blocks.contains_key(&header.block_height) {
                self.confirmed_blocks.insert(header.block_height, header);
                events.push(Event::BlockConfirmed(header.block_height, who));
            }
            i = i + 1;
        }
        proof {
            assert(checkpoints@.take(i as int) =~= checkpoints@);
        }
        events
    }

    /// Settles a round that a single claim won.
    fn settle(&mut self, winner: &Proposal) -> (settlement: Settlement)
        requires
            winner.round >= 1,
        ensures
            (final(self)@, settlement@) == settle(old(self)@, winner@),
    {
        let mut instructions: Vec<Instruction> = Vec::new();
        let mut confirmations: Vec<(EthHeader, AccountId)> = Vec::new();
        let mut c: usize = 0;
        while c < winner.headers.len()
            invariant
                c <= winner.headers.len(),
                confirmations@ == carried(winner@).take(c as int),
            decreases winner.headers.len() - c,
        {
            confirmations.push((winner.headers[c], winner.relayer));
            proof {
                assert(carried(winner@).take(c + 1) =~= carried(winner@).take(c as int).push(
                    (winner@.headers[c as int], winner.relayer),
                ));
            }
            c = c + 1;
        }
        proof {
            assert(carried(winner@).take(c as int) =~= carried(winner@));
        }
        let mut pointer: Option<(u32, u32)> = winner.extend_from;
        let mut round: u32 = winner.round - 1;
        let mut holder: AccountId = winner.relayer;
        let ghost start = old(self)@;
        let ghost whole = walk_back(
            start.proposals,
            winner@.extend_from,
            (winner.round - 1) as nat,
            winner.relayer,
            start.bond,
        );
        let ghost mut walked: Seq<(EthHeader, AccountId)> = Seq::empty();
        proof {
            let w = walk_back(self@.proposals, pointer, round as nat, holder, start.bond);
            assert(prepend(w, instructions@, walked).instructions =~= w.instructions);
            assert(prepend(w, instructions@, walked).confirmations =~= w.confirmations);
            assert(confirmations@ =~= carried(winner@) + walked);
        }
        loop
            invariant
                start == old(self)@,
                whole == walk_back(
                    start.proposals,
                    winner@.extend_from,
                    (winner.round - 1) as nat,
                    winner.relayer,
                    start.bond,
                ),
                self@ == (RelayView { proposals: self@.proposals, ..start }),
                whole == prepend(
                    walk_back(self@.proposals, pointer, round as nat, holder, start.bond),
                    instructions@,
                    walked,
                ),
                confirmations@ == carried(winner@) + walked,
            ensures
                pointer is None,
            decreases round,
        {
            let at = match pointer {
                Some(at) => at,
                None => {
                    break ;
                },
            };
            let ghost here = self@;
            let ghost had = instructions@;
            let ghost seen = confirmations@;
            match self.settle_level(at, round, &mut instructions, &mut confirmations) {
                None => {
                    proof {
                        assert(whole.instructions =~= instructions@);
                    }
                    return Settlement {
                        verdict: Verdict::ProtocolIntegrityViolation,
                        instructions,
                        events: Vec::new(),
                    };
                },
                Some(next) => {
                    proof {
                        let bucket = here.proposals[at.0];
                        let q = designated(bucket, round as int, at.1).unwrap();
                        let level = level_instructions(bucket, round as int, at.1, q.relayer, start.bond);
                        lemma_prepend_twice(
                            walk_back(
                                self@.proposals,
                                q.extend_from,
                                (round - 1) as nat,
                                q.relayer,
                                start.bond,
                            ),
                            had,
                            walked,
                            level,
                            carried(q),
                        );
                        assert(confirmations@ =~= carried(winner@) + (walked + carried(q)));
                        walked = walked + carried(q);
                    }
                    pointer = next.0;
                    holder = next.1;
                    round = round - 1;
                },
            }
        }
        proof {
            assert(whole.instructions =~= instructions@);
            assert(whole.confirmations =~= walked);
        }
        instructions.push(Instruction::Reward(holder, self.bond as Balance));
        let events = self.confirm_checkpoints(&confirmations);
        Settlement { verdict: Verdict::Finalized, instructions, events }
    }

    /// Resolves one round of one game.
    fn resolve(&mut self, game: u32, round: u32) -> (settlement: Settlement)
        ensures
            (final(self)@, settlement@) == resolve_one(old(self)@, game, round),
            ledger_kept(old(self)@.confirmed_blocks, final(self)@.confirmed_blocks),
            well_formed(old(self)@) ==> well_formed(final(self)@),
    {
        proof {
            lemma_resolve_one_keeps_ledger(old(self)@, game, round);
            if well_formed(old(self)@) {
                lemma_resolve_one_keeps_well_formed(old(self)@, game, round);
            }
        }
        let idle = Settlement {
            verdict: Verdict::Idle,
            instructions: Vec::new(),
            events: Vec::new(),
        };
        let samples = match self.samples.get(&game) {
            Some(s) => s,
            None => {
                return idle;
            },
        };
        let count = match answered_count_of(samples.len(), round) {
            Some(c) => c,
            None => {
                return idle;
            },
        };
        let in_play = count == samples.len();
        let terminal = samples[count - 1];
        let bucket = match self.proposal_map.get(&terminal) {
            Some(b) => b,
            None => {
                proof {
                    reveal(Seq::filter);
                }
                return idle;
            },
        };
        let filed = count_in_round(bucket, round);
        if filed == 1 {
            let winner = match find_last_in_round(bucket, round) {
                Some(i) => bucket[i].clone(),
                None => {
                    return idle;
                },
            };
            self.settle(&winner)
        } else if filed >= 2 && in_play {
            let mut grown = copy_of(samples);
            let last_comfirm_block_height = self.last_confirmed_block_height();
            update_samples(&mut grown, last_comfirm_block_height);
            self.put_samples(game, grown);
            Settlement { verdict: Verdict::Escalated, instructions: Vec::new(), events: Vec::new() }
        } else {
            idle
        }
    }

    /// Resolves every `(game, round)` pair that is due at a host height, in
    /// the order in which they were scheduled, and returns one settlement for
    /// each. The pairs are taken off the schedule first, so that a second
    /// call for the same height finds nothing to do.
    pub fn on_challenge_expiry(&mut self, local_height: BlockNumber) -> (settlements: Vec<Settlement>)
        ensures
            (final(self)@, settlement_views(settlements@)) == resolve_all(
                RelayView {
                    challenge_times: old(self)@.challenge_times.insert(local_height, Seq::empty()),
                    ..old(self)@
                },
                old(self)@.challenge_times[local_height],
            ),
            final(self)@.challenge_times == old(self)@.challenge_times.insert(
                local_height,
                Seq::empty(),
            ),
            ledger_kept(old(self)@.confirmed_blocks, final(self)@.confirmed_blocks),
            well_formed(old(self)@) ==> well_formed(final(self)@),
    {
        let due = self.take_timer(local_height);
        let ghost taken = self@;
        let mut settlements: Vec<Settlement> = Vec::new();
        let mut i: usize = 0;
        proof {
            assert(settlement_views(settlements@) =~= Seq::<SettlementView>::empty());
        }
        while i < due.len()
            invariant
                i <= due.len(),
                (self@, settlement_views(settlements@)) == resolve_all(taken, due@.take(i as int)),
            decreases due.len() - i,
        {
            proof {
                assert(due@.take(i + 1).drop_last() =~= due@.take(i as int));
            }
            let ghost before = settlements@;
            let settlement = self.resolve(due[i].0, due[i].1);
            settlements.push(settlement);
            proof {
                assert(settlement_views(settlements@) =~= settlement_views(before).push(settlement@));
            }
            i = i + 1;
        }
        proof {
            assert(due@.take(i as int) =~= due@);
            lemma_resolve_all_frame(taken, due@);
            if well_formed(old(self)@) {
                lemma_resolve_all_keeps_well_formed(taken, due@);
            }
        }
        settlements
    }

    /// The round of a submission that carries `length` checkpoints: round 1
    /// for one checkpoint, and one more round each time the number doubles.
    pub fn get_current_round_from_submit_length(length: usize) -> (round: u32)
        requires
            length >= 1,
        ensures
            round == round_of(length as nat),
    {
        round_of_length(length)
    }

    /// Sets the root of trust. A checkpoint that is marked as forked is turned down.
    pub fn set_last_comfirm_header(&mut self, who: AccountId, header: EthHeader) -> (result: Result<
        Event,
        Error,
    >)
        ensures
            header.lie > 0 ==> result == Err::<Event, Error>(Error::HeaderInvalid) && final(self)@
                == old(self)@,
            header.lie == 0 ==> result == Ok::<Event, Error>(
                Event::UpdateLastConfirmedBlock(header.block_height, who),
            ) && final(self)@ == (RelayView { last_confirmed_header: Some(header), ..old(self)@ }),
            well_formed(old(self)@) ==> well_formed(final(self)@),
    {
        if header.lie > 0 {
            return Err(Error::HeaderInvalid);
        }
        self.last_confirmed_header = Some(header);
        Ok(Event::UpdateLastConfirmedBlock(header.block_height, who))
    }
}

} // verus!
