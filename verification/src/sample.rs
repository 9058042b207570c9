//! The sample selector: where to probe next between two disputed heights.

use crate::entropy::{blake2_256, blake2_256_digest, first_pick, first_pick_u32};
use crate::types::{AccountId, EthereumBlockHeightType};
use std::collections::HashMap;
use vstd::prelude::*;

verus! {

broadcast use vstd::std_specs::hash::group_hash_axioms;

/// The consensus family of the external chain, which decides how a probe is drawn.
#[derive(Clone, Copy, Debug, PartialEq, Eq, Structural)]
pub enum ChainType {
    Normal,
    POW,
}

/// The smaller of the two boundary heights.
pub open spec fn lower_bound(e1: u32, e2: u32) -> u32 {
    if e2 > e1 {
        e1
    } else {
        e2
    }
}

/// The larger of the two boundary heights.
pub open spec fn upper_bound(e1: u32, e2: u32) -> u32 {
    if e2 > e1 {
        e2
    } else {
        e1
    }
}

/// Two boundary heights leave room for a probe when at least one height lies strictly between them.
pub open spec fn has_room(e1: u32, e2: u32) -> bool {
    upper_bound(e1, e2) - lower_bound(e1, e2) >= 2
}

/// The largest offset a draw may take: the number of heights strictly between the bounds, less one.
pub open spec fn draw_range(e1: u32, e2: u32) -> int {
    upper_bound(e1, e2) - lower_bound(e1, e2) - 2
}

/// The probe that lies `offset` heights above the first height after the lower bound.
pub open spec fn sample_at(e1: u32, e2: u32, offset: u32) -> int {
    lower_bound(e1, e2) + 1 + offset
}

/// Computes `draw_range`.
pub fn sample_range(e1: u32, e2: u32) -> (range: u32)
    requires
        has_room(e1, e2),
    ensures
        range == draw_range(e1, e2),
        range < u32::MAX,
{
    if e2 > e1 {
        e2 - e1 - 2
    } else {
        e1 - e2 - 2
    }
}

/// Places a probe from an offset that was drawn within the range.
pub fn sample_with_offset(e1: u32, e2: u32, offset: u32) -> (height: u32)
    requires
        has_room(e1, e2),
        offset <= draw_range(e1, e2),
    ensures
        height == sample_at(e1, e2, offset),
        lower_bound(e1, e2) < height < upper_bound(e1, e2),
{
    let base: u32 = if e2 > e1 {
        e1 + 1
    } else {
        e2 + 1
    };
    base + offset
}

/// The basic sampling rule: a uniform draw over the heights strictly between the bounds.
pub fn get_sample_from_random_number(e1: u32, e2: u32, r: &[u8]) -> (height: u32)
    requires
        has_room(e1, e2),
    ensures
        height == sample_at(e1, e2, first_pick(blake2_256_digest(r@), draw_range(e1, e2) as u32)),
        lower_bound(e1, e2) < height < upper_bound(e1, e2),
{
    let offset = raw_draw(ChainType::Normal, e1, e2, r);
    sample_with_offset(e1, e2, offset)
}

/// The largest number that the rule of a chain type asks the generator for:
/// the whole range for a uniform draw, and `2^31 - 1` for the tail-heavy rule
/// of proof-of-work chains, whose draw is scaled into the range afterwards.
pub open spec fn draw_bound(chain_type: ChainType, e1: u32, e2: u32) -> int {
    match chain_type {
        ChainType::POW => 2147483647,
        ChainType::Normal => draw_range(e1, e2),
    }
}

/// Draws the raw number for a probe between two heights from the entropy,
/// as the rule of the chain type asks for it. For a uniform draw the raw
/// number is the probe's offset.
pub fn raw_draw(chain_type: ChainType, e1: u32, e2: u32, r: &[u8]) -> (raw: u32)
    requires
        has_room(e1, e2),
    ensures
        raw == first_pick(blake2_256_digest(r@), draw_bound(chain_type, e1, e2) as u32),
        raw <= draw_bound(chain_type, e1, e2),
{
    let random_seed = blake2_256(r);
    let bound: u32 = match chain_type {
        ChainType::POW => 2147483647,
        ChainType::Normal => sample_range(e1, e2),
    };
    first_pick_u32(random_seed, bound)
}

/// Whether `h` lies in the stretch below the candidate `c` in which a
/// confirmed height attracts it: within the attraction range of `c`, and not
/// below a bound that is itself below `c`.
pub open spec fn in_lower_window(disagree: u32, agree: u32, c: u32, attract_range: u32, h: int) -> bool {
    &&& c - attract_range <= h < c
    &&& (disagree < c ==> disagree <= h)
    &&& (agree < c ==> agree <= h)
}

/// Whether `h` lies in the stretch from the candidate `c` upward in which a
/// confirmed height attracts it: within the attraction range of `c`, and
/// below every bound that is itself above `c`.
pub open spec fn in_upper_window(disagree: u32, agree: u32, c: u32, attract_range: u32, h: int) -> bool {
    &&& c <= h < c + attract_range
    &&& (disagree > c ==> h < disagree)
    &&& (agree > c ==> h < agree)
}

/// The greatest confirmed height in the lower window, if there is one.
pub open spec fn nearest_below(
    confirmed: Seq<u32>,
    disagree: u32,
    agree: u32,
    c: u32,
    attract_range: u32,
) -> Option<u32>
    decreases confirmed.len(),
{
    if confirmed.len() == 0 {
        None
    } else {
        let rest = nearest_below(confirmed.drop_last(), disagree, agree, c, attract_range);
        let h = confirmed.last();
        if in_lower_window(disagree, agree, c, attract_range, h as int) && (rest is None
            || rest.unwrap() <= h) {
            Some(h)
        } else {
            rest
        }
    }
}

/// The least confirmed height in the upper window, if there is one.
pub open spec fn nearest_above(
    confirmed: Seq<u32>,
    disagree: u32,
    agree: u32,
    c: u32,
    attract_range: u32,
) -> Option<u32>
    decreases confirmed.len(),
{
    if confirmed.len() == 0 {
        None
    } else {
        let rest = nearest_above(confirmed.drop_last(), disagree, agree, c, attract_range);
        let h = confirmed.last();
        if in_upper_window(disagree, agree, c, attract_range, h as int) && (rest is None
            || h <= rest.unwrap()) {
            Some(h)
        } else {
            rest
        }
    }
}

/// `x` moved into the closed interval between the two bounds.
pub open spec fn clamped(x: int, disagree: u32, agree: u32) -> int {
    if x < lower_bound(disagree, agree) {
        lower_bound(disagree, agree) as int
    } else if x > upper_bound(disagree, agree) {
        upper_bound(disagree, agree) as int
    } else {
        x
    }
}

/// Where a candidate probe ends up once confirmed heights nearby are taken
/// into account: one past the nearest confirmed height below it; failing that,
/// one before the nearest confirmed height at or above it; failing that, where it was.
pub open spec fn snapped(
    confirmed: Seq<u32>,
    disagree: u32,
    agree: u32,
    c: u32,
    attract_range: u32,
) -> int {
    match nearest_below(confirmed, disagree, agree, c, attract_range) {
        Some(h) => clamped(h + 1, disagree, agree),
        None => match nearest_above(confirmed, disagree, agree, c, attract_range) {
            Some(h) => clamped(h - 1, disagree, agree),
            None => c as int,
        },
    }
}

/// `nearest_below` is a confirmed height of the lower window and no confirmed
/// height of that window is greater; it is `None` only when the window holds none.
pub proof fn lemma_nearest_below(
    confirmed: Seq<u32>,
    disagree: u32,
    agree: u32,
    c: u32,
    attract_range: u32,
)
    ensures
        match nearest_below(confirmed, disagree, agree, c, attract_range) {
            Some(h) => {
                &&& confirmed.contains(h)
                &&& in_lower_window(disagree, agree, c, attract_range, h as int)
                &&& forall|k: u32|
                    confirmed.contains(k) && in_lower_window(disagree, agree, c, attract_range, k as int)
                        ==> k <= h
            },
            None => forall|k: u32|
                confirmed.contains(k) ==> !in_lower_window(disagree, agree, c, attract_range, k as int),
        },
    decreases confirmed.len(),
{
    if confirmed.len() > 0 {
        let front = confirmed.drop_last();
        lemma_nearest_below(front, disagree, agree, c, attract_range);
        assert forall|k: u32| confirmed.contains(k) implies front.contains(k) || k
            == confirmed.last() by {
            let i = choose|i: int| 0 <= i < confirmed.len() && confirmed[i] == k;
            if i < confirmed.len() - 1 {
                assert(front[i] == k);
            }
        }
        assert forall|k: u32| front.contains(k) implies confirmed.contains(k) by {
            let i = choose|i: int| 0 <= i < front.len() && front[i] == k;
            assert(confirmed[i] == k);
        }
        assert(confirmed[confirmed.len() - 1] == confirmed.last());
    }
}

/// `nearest_above` is a confirmed height of the upper window and no confirmed
/// height of that window is smaller; it is `None` only when the window holds none.
pub proof fn lemma_nearest_above(
    confirmed: Seq<u32>,
    disagree: u32,
    agree: u32,
    c: u32,
    attract_range: u32,
)
    ensures
        match nearest_above(confirmed, disagree, agree, c, attract_range) {
            Some(h) => {
                &&& confirmed.contains(h)
                &&& in_upper_window(disagree, agree, c, attract_range, h as int)
                &&& forall|k: u32|
                    confirmed.contains(k) && in_upper_window(disagree, agree, c, attract_range, k as int)
                        ==> h <= k
            },
            None => forall|k: u32|
                confirmed.contains(k) ==> !in_upper_window(disagree, agree, c, attract_range, k as int),
        },
    decreases confirmed.len(),
{
    if confirmed.len() > 0 {
        let front = confirmed.drop_last();
        lemma_nearest_above(front, disagree, agree, c, attract_range);
        assert forall|k: u32| confirmed.contains(k) implies front.contains(k) || k
            == confirmed.last() by {
            let i = choose|i: int| 0 <= i < confirmed.len() && confirmed[i] == k;
            if i < confirmed.len() - 1 {
                assert(front[i] == k);
            }
        }
        assert forall|k: u32| front.contains(k) implies confirmed.contains(k) by {
            let i = choose|i: int| 0 <= i < front.len() && front[i] == k;
            assert(confirmed[i] == k);
        }
        assert(confirmed[confirmed.len() - 1] == confirmed.last());
    }
}

/// A candidate between the bounds stays between them when it is snapped,
/// and moves by no more than the attraction range.
pub proof fn lemma_snapped_stays_close(
    confirmed: Seq<u32>,
    disagree: u32,
    agree: u32,
    c: u32,
    attract_range: u32,
)
    requires
        lower_bound(disagree, agree) <= c <= upper_bound(disagree, agree),
    ensures
        lower_bound(disagree, agree) <= snapped(confirmed, disagree, agree, c, attract_range)
            <= upper_bound(disagree, agree),
        attract_range == 0 ==> snapped(confirmed, disagree, agree, c, attract_range) == c,
        attract_range > 0 ==> c - attract_range <= snapped(
            confirmed,
            disagree,
            agree,
            c,
            attract_range,
        ) < c + attract_range,
{
    lemma_nearest_below(confirmed, disagree, agree, c, attract_range);
    lemma_nearest_above(confirmed, disagree, agree, c, attract_range);
}

/// Without a confirmed height in either window the candidate stays where it is.
pub proof fn lemma_snapped_without_neighbour(
    confirmed: Seq<u32>,
    disagree: u32,
    agree: u32,
    c: u32,
    attract_range: u32,
)
    requires
        forall|k: u32|
            confirmed.contains(k) ==> !in_lower_window(disagree, agree, c, attract_range, k as int)
                && !in_upper_window(disagree, agree, c, attract_range, k as int),
    ensures
        snapped(confirmed, disagree, agree, c, attract_range) == c,
{
    lemma_nearest_below(confirmed, disagree, agree, c, attract_range);
    lemma_nearest_above(confirmed, disagree, agree, c, attract_range);
}

/// Computes `in_lower_window`.
fn is_in_lower_window(disagree: u32, agree: u32, c: u32, attract_range: u32, h: u32) -> (b: bool)
    ensures
        b == in_lower_window(disagree, agree, c, attract_range, h as int),
{
    let in_reach = h < c && c as u64 <= h as u64 + attract_range as u64;
    let above_disagree = disagree >= c || disagree <= h;
    let above_agree = agree >= c || agree <= h;
    in_reach && above_disagree && above_agree
}

/// Computes `in_upper_window`.
fn is_in_upper_window(disagree: u32, agree: u32, c: u32, attract_range: u32, h: u32) -> (b: bool)
    ensures
        b == in_upper_window(disagree, agree, c, attract_range, h as int),
{
    let in_reach = c <= h && (h as u64) < c as u64 + attract_range as u64;
    let below_disagree = disagree <= c || h < disagree;
    let below_agree = agree <= c || h < agree;
    in_reach && below_disagree && below_agree
}

/// Computes `clamped`.
fn clamp_between(x: i64, disagree: u32, agree: u32) -> (r: u32)
    ensures
        r == clamped(x as int, disagree, agree),
{
    let lo: u32 = if agree > disagree {
        disagree
    } else {
        agree
    };
    let hi: u32 = if agree > disagree {
        agree
    } else {
        disagree
    };
    if x < lo as i64 {
        lo
    } else if x > hi as i64 {
        hi
    } else {
        x as u32
    }
}

/// Moves a candidate probe next to a confirmed height that lies within the
/// attraction range, so that settled regions are not probed again.
pub fn snap_to_confirmed_affinity(
    candidate: u32,
    disagree: u32,
    agree: u32,
    confirmed: &Vec<u32>,
    attract_range: u32,
) -> (height: u32)
    ensures
        height == snapped(confirmed@, disagree, agree, candidate, attract_range),
{
    let mut below: Option<u32> = None;
    let mut above: Option<u32> = None;
    let mut i: usize = 0;
    while i < confirmed.len()
        invariant
            i <= confirmed.len(),
            below == nearest_below(
                confirmed@.take(i as int),
                disagree,
                agree,
                candidate,
                attract_range,
            ),
            above == nearest_above(
                confirmed@.take(i as int),
                disagree,
                agree,
                candidate,
                attract_range,
            ),
        decreases confirmed.len() - i,
    {
        let h: u32 = confirmed[i];
        proof {
            assert(confirmed@.take(i + 1).drop_last() =~= confirmed@.take(i as int));
            assert(confirmed@.take(i + 1).last() == h);
        }
        if is_in_lower_window(disagree, agree, candidate, attract_range, h) {
            let better = match below {
                Some(b) => b <= h,
                None => true,
            };
            if better {
                below = Some(h);
            }
        }
        if is_in_upper_window(disagree, agree, candidate, attract_range, h) {
            let better = match above {
                Some(a) => h <= a,
                None => true,
            };
            if better {
                above = Some(h);
            }
        }
        i = i + 1;
    }
    proof {
        assert(confirmed@.take(i as int) =~= confirmed@);
    }
    match below {
        Some(h) => clamp_between(h as i64 + 1, disagree, agree),
        None => match above {
            Some(h) => clamp_between(h as i64 - 1, disagree, agree),
            None => candidate,
        },
    }
}

/// What the selector announces.
#[derive(Clone, Copy, Debug, PartialEq, Eq, Structural)]
pub enum Event {
    /// A height entered the confirmed ledger at the request of the given participant.
    BlockConfirmed(EthereumBlockHeightType, AccountId),
}

/// The selector's state as plain mathematics.
pub struct ModuleView {
    /// How probes are drawn for this external chain.
    pub chain_type: ChainType,
    /// How far a confirmed height attracts a probe.
    pub attract_range: u32,
    /// The confirmed heights, in the order in which they were confirmed.
    pub confirmed_blocks: Seq<u32>,
    /// The probe chosen for each `(disagree, agree)` pair that was sampled.
    pub sampling_blocks_map: Map<(u32, u32), u32>,
    /// Every probe chosen so far, oldest first.
    pub sampling_blocks: Seq<u32>,
}

/// One number for a `(disagree, agree)` pair; distinct pairs get distinct numbers.
pub open spec fn pair_key(disagree: u32, agree: u32) -> u64 {
    (disagree * 0x1_0000_0000 + agree) as u64
}

/// The sample selector together with the confirmed heights it steers around.
pub struct Module {
    chain_type: ChainType,
    attract_range: u32,
    confirmed_blocks: Vec<u32>,
    sampling_blocks_map: HashMap<u64, u32>,
    sampling_blocks: Vec<u32>,
}

impl View for Module {
    type V = ModuleView;

    closed spec fn view(&self) -> ModuleView {
        ModuleView {
            chain_type: self.chain_type,
            attract_range: self.attract_range,
            confirmed_blocks: self.confirmed_blocks@,
            sampling_blocks_map: Map::new(
                |k: (u32, u32)| self.sampling_blocks_map@.contains_key(pair_key(k.0, k.1)),
                |k: (u32, u32)| self.sampling_blocks_map@[pair_key(k.0, k.1)],
            ),
            sampling_blocks: self.sampling_blocks@,
        }
    }
}

/// Computes `pair_key`.
fn key_of(disagree: u32, agree: u32) -> (k: u64)
    ensures
        k == pair_key(disagree, agree),
{
    disagree as u64 * 0x1_0000_0000 + agree as u64
}

impl Module {
    /// A selector for the given kind of chain, with nothing confirmed and nothing sampled.
    pub fn new(chain_type: ChainType, attract_range: u32) -> (module: Module)
        ensures
            module@.chain_type == chain_type,
            module@.attract_range == attract_range,
            module@.confirmed_blocks == Seq::<u32>::empty(),
            module@.sampling_blocks_map == Map::<(u32, u32), u32>::empty(),
            module@.sampling_blocks == Seq::<u32>::empty(),
    {
        let module = Module {
            chain_type,
            attract_range,
            confirmed_blocks: Vec::new(),
            sampling_blocks_map: HashMap::new(),
            sampling_blocks: Vec::new(),
        };
        assert(module@.sampling_blocks_map =~= Map::<(u32, u32), u32>::empty());
        module
    }

    /// How probes are drawn for this external chain.
    pub fn chain_type(&self) -> (chain_type: ChainType)
        ensures
            chain_type == self@.chain_type,
    {
        self.chain_type
    }

    /// How far a confirmed height attracts a probe.
    pub fn attract_range(&self) -> (attract_range: u32)
        ensures
            attract_range == self@.attract_range,
    {
        self.attract_range
    }

    /// The confirmed heights, in the order in which they were confirmed.
    pub fn confirmed_blocks(&self) -> (blocks: &Vec<u32>)
        ensures
            blocks@ == self@.confirmed_blocks,
    {
        &self.confirmed_blocks
    }

    /// Every probe chosen so far, oldest first.
    pub fn sampling_blocks(&self) -> (blocks: &Vec<u32>)
        ensures
            blocks@ == self@.sampling_blocks,
    {
        &self.sampling_blocks
    }

    /// The probe recorded for a pair of bounds, if the pair was sampled.
    pub fn sampling_blocks_map(&self, disagree: u32, agree: u32) -> (probe: Option<u32>)
        ensures
            probe == if self@.sampling_blocks_map.contains_key((disagree, agree)) {
                Some(self@.sampling_blocks_map[(disagree, agree)])
            } else {
                None
            },
    {
        let k = key_of(disagree, agree);
        match self.sampling_blocks_map.get(&k) {
            Some(p) => Some(*p),
            None => None,
        }
    }

    /// Whether a height is in the confirmed ledger.
    pub fn is_confirmed(&self, block_height: u32) -> (b: bool)
        ensures
            b == self@.confirmed_blocks.contains(block_height),
    {
        let mut i: usize = 0;
        while i < self.confirmed_blocks.len()
            invariant
                i <= self.confirmed_blocks.len(),
                forall|j: int| 0 <= j < i ==> self.confirmed_blocks@[j] != block_height,
            decreases self.confirmed_blocks.len() - i,
        {
            if self.confirmed_blocks[i] == block_height {
                return true;
            }
            i = i + 1;
        }
        false
    }

    /// Enters a height into the confirmed ledger. A height that is already
    /// there is not entered again; the ledger never loses a height.
    pub fn confirm(&mut self, who: AccountId, block_height: u32) -> (event: Event)
        ensures
            event == Event::BlockConfirmed(block_height, who),
            final(self)@.confirmed_blocks == if old(self)@.confirmed_blocks.contains(block_height) {
                old(self)@.confirmed_blocks
            } else {
                old(self)@.confirmed_blocks.push(block_height)
            },
            final(self)@.chain_type == old(self)@.chain_type,
            final(self)@.attract_range == old(self)@.attract_range,
            final(self)@.sampling_blocks_map == old(self)@.sampling_blocks_map,
            final(self)@.sampling_blocks == old(self)@.sampling_blocks,
            final(self)@.confirmed_blocks.contains(block_height),
            forall|h: u32|
                old(self)@.confirmed_blocks.contains(h) ==> final(self)@.confirmed_blocks.contains(h),
    {
        proof {
            let before = old(self)@.confirmed_blocks;
            assert(before.push(block_height)[before.len() as int] == block_height);
            assert forall|h: u32| before.contains(h) implies before.push(block_height).contains(
                h,
            ) by {
                let i = choose|i: int| 0 <= i < before.len() && before[i] == h;
                assert(before.push(block_height)[i] == h);
            }
        }
        if !self.is_confirmed(block_height) {
            self.confirmed_blocks.push(block_height);
        }
        Event::BlockConfirmed(block_height, who)
    }

    /// Snaps a raw probe to the confirmed heights of this ledger.
    pub fn handle_confirm_blocks_affinity(
        &self,
        disagree: u32,
        agree: u32,
        raw_sample_position: u32,
    ) -> (height: u32)
        ensures
            height == snapped(
                self@.confirmed_blocks,
                disagree,
                agree,
                raw_sample_position,
                self@.attract_range,
            ),
    {
        snap_to_confirmed_affinity(
            raw_sample_position,
            disagree,
            agree,
            &self.confirmed_blocks,
            self.attract_range,
        )
    }

    /// Records the probe for a pair of bounds from a raw draw, unless the pair
    /// already has one: the raw position is snapped to the confirmed heights,
    /// stored for the pair and appended to the list of probes. Returns the
    /// probe that the pair has afterwards.
    pub fn gen_sampling_blocks(&mut self, disagree: u32, agree: u32, raw_sample_position: u32) -> (probe: u32)
        ensures
            final(self)@.chain_type == old(self)@.chain_type,
            final(self)@.attract_range == old(self)@.attract_range,
            final(self)@.confirmed_blocks == old(self)@.confirmed_blocks,
            old(self)@.sampling_blocks_map.contains_key((disagree, agree)) ==> {
                &&& probe == old(self)@.sampling_blocks_map[(disagree, agree)]
                &&& final(self)@ == old(self)@
            },
            !old(self)@.sampling_blocks_map.contains_key((disagree, agree)) ==> {
                &&& probe == snapped(
                    old(self)@.confirmed_blocks,
                    disagree,
                    agree,
                    raw_sample_position,
                    old(self)@.attract_range,
                )
                &&& final(self)@.sampling_blocks_map == old(self)@.sampling_blocks_map.insert(
                    (disagree, agree),
                    probe,
                )
                &&& final(self)@.sampling_blocks == old(self)@.sampling_blocks.push(probe)
            },
    {
        let k = key_of(disagree, agree);
        match self.sampling_blocks_map.get(&k) {
            Some(p) => *p,
            None => {
                let sample_position = self.handle_confirm_blocks_affinity(
                    disagree,
                    agree,
                    raw_sample_position,
                );
                self.sampling_blocks_map.insert(k, sample_position);
                self.sampling_blocks.push(sample_position);
                proof {
                    assert forall|p: (u32, u32)| pair_key(p.0, p.1) == k implies p == (
                        disagree,
                        agree,
                    ) by {}
                    assert(final(self)@.sampling_blocks_map =~= old(self)@.sampling_blocks_map.insert(
                        (disagree, agree),
                        sample_position,
                    ));
                }
                sample_position
            },
        }
    }
}

} // verus!
