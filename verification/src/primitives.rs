//! Plain data types shared by the whole library.
//!
//! Chain hashes, validator keys and VRF material are carried as opaque
//! numeric identifiers: the library reasons about which values flow where,
//! never about the cryptography behind them.

use vstd::prelude::*;

verus! {

/// A relay-chain block number.
pub type BlockNumber = u32;

/// Index of a session (an epoch-like validator-set period).
pub type SessionIndex = u32;

/// A consensus slot number.
pub type Slot = u64;

/// A discretized time unit used to schedule approval-check timeouts.
pub type Tick = u64;

/// Identifies a relay-chain block.
#[derive(Clone, Copy, Debug, PartialEq, Eq, Structural, Hash)]
pub struct BlockHash(pub u64);

/// Identifies a parachain candidate.
#[derive(Clone, Copy, Debug, PartialEq, Eq, Structural, Hash)]
pub struct CandidateHash(pub u64);

/// Index of an availability core.
#[derive(Clone, Copy, Debug, PartialEq, Eq, Structural, Hash)]
pub struct CoreIndex(pub u32);

/// Index of a backing validator group.
#[derive(Clone, Copy, Debug, PartialEq, Eq, Structural, Hash)]
pub struct GroupIndex(pub u32);

/// The VRF pre-digest a block author places in the header digest.
#[derive(Clone, Copy, Debug, PartialEq, Eq, Structural)]
pub struct VrfPreDigest {
    /// Which authority of the epoch authored the block.
    pub authority_index: u32,
    /// The slot the block was authored in.
    pub slot: Slot,
    /// The VRF output, as an opaque identifier.
    pub vrf_output: u64,
    /// The VRF proof, as an opaque identifier.
    pub vrf_proof: u64,
}

/// The digest of a block header, reduced to what the import logic reads:
/// the optional VRF pre-digest.
#[derive(Clone, Copy, Debug, PartialEq, Eq, Structural)]
pub struct Digest {
    /// The VRF pre-digest, if the author supplied one.
    pub vrf: Option<VrfPreDigest>,
}

impl Digest {
    /// A digest with no VRF information.
    pub fn empty() -> (r: Digest)
        ensures
            r.vrf is None,
    {
        Digest { vrf: None }
    }
}

/// A relay-chain block header, reduced to the fields the import logic reads.
#[derive(Clone, Copy, Debug, PartialEq, Eq, Structural)]
pub struct Header {
    /// Hash of the parent block.
    pub parent_hash: BlockHash,
    /// Height of the block.
    pub number: BlockNumber,
    /// The header digest.
    pub digest: Digest,
}

impl View for Header {
    type V = Header;

    open spec fn view(&self) -> Header {
        *self
    }
}

/// Validator-set and parameter snapshot for one session.
///
/// Key material is opaque to the import logic, so the validator and key
/// lists are carried as their lengths only.
#[derive(Clone, Copy, Debug, PartialEq, Eq, Structural)]
pub struct SessionInfo {
    /// How many validators the session has.
    pub n_validators: u32,
    /// How many discovery keys the session publishes.
    pub n_discovery_keys: u32,
    /// How many assignment keys the session publishes.
    pub n_assignment_keys: u32,
    /// How many backing groups the validators are split into.
    pub n_validator_groups: u32,
    /// How many availability cores the session schedules.
    pub n_cores: u32,
    /// Width of the zeroth delay tranche.
    pub zeroth_delay_tranche_width: u32,
    /// How many samples the relay-VRF-modulo assignment draws.
    pub relay_vrf_modulo_samples: u32,
    /// How many delay tranches the session uses.
    pub n_delay_tranches: u32,
    /// After how many slots an expected approval counts as a no-show.
    pub no_show_slots: u32,
    /// How many approvals a candidate needs.
    pub needed_approvals: u32,
}

impl View for SessionInfo {
    type V = SessionInfo;

    open spec fn view(&self) -> SessionInfo {
        *self
    }
}

/// A candidate receipt, reduced to the fields the import logic reads.
#[derive(Clone, Copy, Debug, PartialEq, Eq, Structural)]
pub struct CandidateReceipt {
    /// The parachain the candidate belongs to.
    pub para_id: u32,
    /// The relay-chain block the candidate was built on.
    pub relay_parent: BlockHash,
}

impl CandidateReceipt {
    /// The content identifier of this receipt.
    pub open spec fn hash_spec(self) -> CandidateHash {
        CandidateHash((self.para_id as u64) ^ ((self.relay_parent.0 as u64) << 32))
    }

    /// Computes the content identifier of this receipt.
    pub fn hash(&self) -> (r: CandidateHash)
        ensures
            r == self.hash_spec(),
    {
        CandidateHash((self.para_id as u64) ^ ((self.relay_parent.0 as u64) << 32))
    }
}

/// A candidate event reported by the runtime for one block.
#[derive(Clone, Copy, Debug, PartialEq, Eq, Structural)]
pub enum CandidateEvent {
    /// The candidate was backed.
    CandidateBacked(CandidateReceipt, CoreIndex, GroupIndex),
    /// The candidate was included.
    CandidateIncluded(CandidateReceipt, CoreIndex, GroupIndex),
    /// The candidate timed out.
    CandidateTimedOut(CandidateReceipt, CoreIndex),
}

/// VRF epoch data at a block's own post-state.
#[derive(Clone, Copy, Debug, PartialEq, Eq, Structural)]
pub struct BabeEpoch {
    /// Index of the epoch.
    pub epoch_index: u64,
    /// First slot of the epoch.
    pub start_slot: Slot,
    /// Length of the epoch in slots.
    pub duration: u64,
    /// How many authorities the epoch has.
    pub n_authorities: u32,
    /// The epoch randomness, as an opaque identifier.
    pub randomness: u64,
}

impl View for BabeEpoch {
    type V = BabeEpoch;

    open spec fn view(&self) -> BabeEpoch {
        *self
    }
}

/// The VRF story seed a block contributes to assignment computation.
#[derive(Clone, Copy, Debug, PartialEq, Eq, Structural)]
pub struct VrfStory(pub u64);

/// This validator's approval assignment for one core.
#[derive(Clone, Copy, Debug, PartialEq, Eq, Structural)]
pub struct OurAssignment {
    /// The delay tranche of the assignment.
    pub tranche: u32,
    /// The validator index the assignment was signed with.
    pub validator_index: u32,
}

/// The local signing-key store, carried as a list of opaque key identifiers.
#[derive(Clone, Debug, PartialEq, Eq)]
pub struct Keystore {
    /// The opaque identifiers of the locally held keys.
    pub keys: Vec<u64>,
}

impl Keystore {
    /// An in-memory keystore holding no keys.
    pub fn in_memory() -> (r: Keystore)
        ensures
            r.keys@ == Seq::<u64>::empty(),
    {
        Keystore { keys: Vec::new() }
    }
}

} // verus!
