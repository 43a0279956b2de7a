//! Block and candidate entries as the approval database persists them.

use vstd::prelude::*;

use crate::bitfield::{bitfield_bits, Bitfield};
use crate::primitives::{
    BlockHash, BlockNumber, CandidateHash, CandidateReceipt, CoreIndex, GroupIndex, OurAssignment,
    SessionIndex, Slot, VrfStory,
};

verus! {

/// Metadata the database keeps for one imported block.
pub struct BlockEntry {
    /// Hash of the block.
    pub block_hash: BlockHash,
    /// Hash of the parent block.
    pub parent_hash: BlockHash,
    /// Height of the block.
    pub block_number: BlockNumber,
    /// The session governing the block.
    pub session: SessionIndex,
    /// The slot the block was authored in.
    pub slot: Slot,
    /// The VRF story seed of the block.
    pub relay_vrf_story: VrfStory,
    /// The candidates included by the block, in core order.
    pub candidates: Vec<(CoreIndex, CandidateHash)>,
    /// Approval state of the included candidates; one bit per candidate,
    /// all unset at import.
    pub approved_bitfield: Bitfield,
    /// The already-imported children of the block.
    pub children: Vec<BlockHash>,
}

/// The mathematical model of a [`BlockEntry`].
pub ghost struct BlockEntryModel {
    /// Hash of the block.
    pub block_hash: BlockHash,
    /// Hash of the parent block.
    pub parent_hash: BlockHash,
    /// Height of the block.
    pub block_number: BlockNumber,
    /// The session governing the block.
    pub session: SessionIndex,
    /// The slot the block was authored in.
    pub slot: Slot,
    /// The VRF story seed of the block.
    pub relay_vrf_story: VrfStory,
    /// The candidates included by the block, in core order.
    pub candidates: Seq<(CoreIndex, CandidateHash)>,
    /// Approval state of the included candidates.
    pub approved_bitfield: Seq<bool>,
    /// The already-imported children of the block.
    pub children: Seq<BlockHash>,
}

impl View for BlockEntry {
    type V = BlockEntryModel;

    open spec fn view(&self) -> BlockEntryModel {
        BlockEntryModel {
            block_hash: self.block_hash,
            parent_hash: self.parent_hash,
            block_number: self.block_number,
            session: self.session,
            slot: self.slot,
            relay_vrf_story: self.relay_vrf_story,
            candidates: self.candidates@,
            approved_bitfield: bitfield_bits(self.approved_bitfield),
            children: self.children@,
        }
    }
}

impl BlockEntry {
    /// Whether candidate `index` of this block has been approved;
    /// `None` when the block includes no such candidate.
    pub fn is_approved(&self, index: usize) -> (r: Option<bool>)
        ensures
            r is Some <==> index < self@.approved_bitfield.len(),
            r matches Some(bit) ==> bit == self@.approved_bitfield[index as int],
    {
        if index < self.approved_bitfield.len() {
            Some(self.approved_bitfield.get(index))
        } else {
            None
        }
    }
}

/// Metadata the database keeps for one candidate awaiting approval.
///
/// The same candidate may be included by blocks on several forks; its
/// entry is created once and later inclusions leave it unchanged.
pub struct CandidateEntry {
    /// The candidate receipt.
    pub candidate: CandidateReceipt,
    /// The session governing the candidate's inclusion.
    pub session: SessionIndex,
    /// The group that backed the candidate.
    pub backing_group: GroupIndex,
    /// This validator's assignment for the candidate's core, if any.
    pub our_assignment: Option<OurAssignment>,
    /// Per-validator approval bits, all unset at creation.
    pub approvals: Bitfield,
}

/// The mathematical model of a [`CandidateEntry`].
pub ghost struct CandidateEntryModel {
    /// The candidate receipt.
    pub candidate: CandidateReceipt,
    /// The session governing the candidate's inclusion.
    pub session: SessionIndex,
    /// The group that backed the candidate.
    pub backing_group: GroupIndex,
    /// This validator's assignment for the candidate's core, if any.
    pub our_assignment: Option<OurAssignment>,
    /// Per-validator approval bits.
    pub approvals: Seq<bool>,
}

impl View for CandidateEntry {
    type V = CandidateEntryModel;

    open spec fn view(&self) -> CandidateEntryModel {
        CandidateEntryModel {
            candidate: self.candidate,
            session: self.session,
            backing_group: self.backing_group,
            our_assignment: self.our_assignment,
            approvals: bitfield_bits(self.approvals),
        }
    }
}

impl CandidateEntry {
    /// Copies the entry, bit for bit.
    pub fn duplicate(&self) -> (r: CandidateEntry)
        ensures
            r@ == self@,
    {
        CandidateEntry {
            candidate: self.candidate,
            session: self.session,
            backing_group: self.backing_group,
            our_assignment: self.our_assignment,
            approvals: self.approvals.clone(),
        }
    }
}

/// What the import coordinator knows about a candidate it is about to
/// persist for the first time.
#[derive(Clone, Copy, Debug, PartialEq, Eq, Structural)]
pub struct NewCandidateInfo {
    /// The candidate receipt.
    pub candidate: CandidateReceipt,
    /// The group that backed the candidate.
    pub backing_group: GroupIndex,
    /// This validator's assignment for the candidate's core, if any.
    pub our_assignment: Option<OurAssignment>,
}

impl NewCandidateInfo {
    /// The candidate entry a first inclusion in `session` creates, with
    /// one unset approval bit per validator.
    pub open spec fn entry_model(self, session: SessionIndex, n_validators: nat)
        -> CandidateEntryModel {
        CandidateEntryModel {
            candidate: self.candidate,
            session: session,
            backing_group: self.backing_group,
            our_assignment: self.our_assignment,
            approvals: Seq::new(n_validators, |i: int| false),
        }
    }

    /// Builds the candidate entry a first inclusion in `session` creates.
    pub fn into_entry(self, session: SessionIndex, n_validators: usize) -> (r: CandidateEntry)
        ensures
            r@ == self.entry_model(session, n_validators as nat),
    {
        CandidateEntry {
            candidate: self.candidate,
            session: session,
            backing_group: self.backing_group,
            our_assignment: self.our_assignment,
            approvals: Bitfield::repeat(false, n_validators),
        }
    }
}

} // verus!
