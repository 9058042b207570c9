//! Plain values shared by the modules: checkpoints, claims and what the engine hands out.

use vstd::prelude::*;

verus! {

/// Identifies a participant.
pub type AccountId = u64;

/// A height of the host chain.
pub type BlockNumber = u64;

/// An amount of the bonding currency.
pub type Balance = u128;

/// A height of the external chain.
pub type EthereumBlockHeightType = u32;

/// The number of a round of a game, counted from one.
pub type SubmitRound = u32;

/// A checkpoint: a claim about what the external chain holds at a height.
///
/// `lie` tells claimed contents apart: two checkpoints at one height with the
/// same `lie` claim the same content.
#[derive(Clone, Copy, Debug, PartialEq, Eq, Structural)]
pub struct EthHeader {
    pub lie: u32,
    pub block_height: EthereumBlockHeightType,
}

impl Default for EthHeader {
    fn default() -> (header: EthHeader)
        ensures
            header == (EthHeader { lie: 0, block_height: 0 }),
    {
        EthHeader { lie: 0, block_height: 0 }
    }
}

/// One participant's claim for one round of a game.
///
/// `headers` holds the checkpoints that this round added; `extend_from` names
/// the height and content of the last checkpoint of the claim it builds on,
/// and is `None` for a claim of the first round.
#[derive(Debug, PartialEq, Eq)]
pub struct Proposal {
    pub headers: Vec<EthHeader>,
    pub round: SubmitRound,
    pub relayer: AccountId,
    pub extend_from: Option<(EthereumBlockHeightType, u32)>,
}

/// A claim as a mathematical value.
pub struct ProposalView {
    pub headers: Seq<EthHeader>,
    pub round: SubmitRound,
    pub relayer: AccountId,
    pub extend_from: Option<(EthereumBlockHeightType, u32)>,
}

impl View for Proposal {
    type V = ProposalView;

    open spec fn view(&self) -> ProposalView {
        ProposalView {
            headers: self.headers@,
            round: self.round,
            relayer: self.relayer,
            extend_from: self.extend_from,
        }
    }
}

/// A copy of a list of plain values.
pub fn copy_of<T: Copy>(items: &Vec<T>) -> (copy: Vec<T>)
    ensures
        copy@ == items@,
{
    let mut copy: Vec<T> = Vec::new();
    let mut i: usize = 0;
    while i < items.len()
        invariant
            i <= items.len(),
            copy@ == items@.take(i as int),
        decreases items.len() - i,
    {
        copy.push(items[i]);
        proof {
            assert(items@.take(i + 1) =~= items@.take(i as int).push(items@[i as int]));
        }
        i = i + 1;
    }
    proof {
        assert(items@.take(i as int) =~= items@);
    }
    copy
}

impl Clone for Proposal {
    fn clone(&self) -> (copy: Proposal)
        ensures
            copy@ == self@,
    {
        Proposal {
            headers: copy_of(&self.headers),
            round: self.round,
            relayer: self.relayer,
            extend_from: self.extend_from,
        }
    }
}

/// The views of a list of claims, in order.
pub open spec fn views(claims: Seq<Proposal>) -> Seq<ProposalView> {
    claims.map_values(|p: Proposal| p@)
}

/// An order to the ledger that holds the participants' bonds.
#[derive(Clone, Copy, Debug, PartialEq, Eq, Structural)]
pub enum Instruction {
    /// Pay the amount to the participant.
    Reward(AccountId, Balance),
    /// Take the amount from the participant's bond.
    Slash(AccountId, Balance),
}

/// What the game engine announces.
#[derive(Clone, Copy, Debug, PartialEq, Eq, Structural)]
pub enum Event {
    /// The root of trust was set to the checkpoint at this height by this participant.
    UpdateLastConfirmedBlock(EthereumBlockHeightType, AccountId),
    /// A claim was accepted: the first and last height it added, and its round.
    SubmitHeaders(EthereumBlockHeightType, EthereumBlockHeightType, SubmitRound),
    /// The checkpoint at this height, supplied by this participant, became canonical.
    BlockConfirmed(EthereumBlockHeightType, AccountId),
}

/// Why a call was turned down.
#[derive(Clone, Copy, Debug, PartialEq, Eq, Structural)]
pub enum Error {
    /// No checkpoint was given, or a checkpoint that cannot be a root of trust.
    HeaderInvalid,
    /// No claim of the round before carries the leading checkpoints.
    NotExtendFromError,
    /// The heights differ from the samples that the game asks for.
    NotComplyWithSamples,
}

} // verus!
