//! Extracting approval-relevant information from one imported block.

use vstd::prelude::*;

use crate::api::{RuntimeApi, RuntimeModel};
use crate::primitives::{BabeEpoch, BlockHash, CandidateEvent, CandidateHash,
    CandidateReceipt, CoreIndex, GroupIndex, Header, Keystore, OurAssignment, SessionIndex,
    SessionInfo, Slot, VrfPreDigest, VrfStory};
use crate::window::RollingSessionWindow;

verus! {

/// The per-session parameters the assignment criteria work from.
#[derive(Clone, Copy, Debug, PartialEq, Eq, Structural)]
pub struct SessionConfig {
    /// How many assignment keys the session publishes.
    pub n_assignment_keys: u32,
    /// How many backing groups the validators are split into.
    pub n_validator_groups: u32,
    /// How many availability cores the session schedules.
    pub n_cores: u32,
    /// Width of the zeroth delay tranche.
    pub zeroth_delay_tranche_width: u32,
    /// How many samples the relay-VRF-modulo assignment draws.
    pub relay_vrf_modulo_samples: u32,
    /// How many delay tranches the session uses.
    pub n_delay_tranches: u32,
}

/// The session config derived from a session's information.
pub open spec fn config_of(info: SessionInfo) -> SessionConfig {
    SessionConfig {
        n_assignment_keys: info.n_assignment_keys,
        n_validator_groups: info.n_validator_groups,
        n_cores: info.n_cores,
        zeroth_delay_tranche_width: info.zeroth_delay_tranche_width,
        relay_vrf_modulo_samples: info.relay_vrf_modulo_samples,
        n_delay_tranches: info.n_delay_tranches,
    }
}

impl SessionConfig {
    /// Derives the config from a session's information.
    pub fn from_info(info: &SessionInfo) -> (r: SessionConfig)
        ensures
            r == config_of(*info),
    {
        SessionConfig {
            n_assignment_keys: info.n_assignment_keys,
            n_validator_groups: info.n_validator_groups,
            n_cores: info.n_cores,
            zeroth_delay_tranche_width: info.zeroth_delay_tranche_width,
            relay_vrf_modulo_samples: info.relay_vrf_modulo_samples,
            n_delay_tranches: info.n_delay_tranches,
        }
    }
}

/// The assignment-criteria capability: a pure computation of this
/// validator's approval assignments, one per core at most.
pub trait AssignmentCriteria {
    /// The assignments computed from the given keys, VRF story, session
    /// config and leaving cores.
    spec fn assignments_spec(&self, keys: Seq<u64>, relay_vrf_story: VrfStory,
        config: SessionConfig, leaving_cores: Seq<(CoreIndex, GroupIndex)>)
        -> Seq<(CoreIndex, OurAssignment)>;

    /// Computes this validator's assignments.
    fn compute_assignments(&self, keystore: &Keystore, relay_vrf_story: VrfStory,
        config: &SessionConfig, leaving_cores: Vec<(CoreIndex, GroupIndex)>)
        -> (r: Vec<(CoreIndex, OurAssignment)>)
        ensures
            r@ == self.assignments_spec(keystore.keys@, relay_vrf_story, *config,
                leaving_cores@),
    ;
}

/// A criteria implementation that never assigns this validator: the
/// state of a node that holds no assignment key.
pub struct NullCriteria;

impl AssignmentCriteria for NullCriteria {
    open spec fn assignments_spec(&self, keys: Seq<u64>, relay_vrf_story: VrfStory,
        config: SessionConfig, leaving_cores: Seq<(CoreIndex, GroupIndex)>)
        -> Seq<(CoreIndex, OurAssignment)> {
        Seq::empty()
    }

    fn compute_assignments(&self, keystore: &Keystore, relay_vrf_story: VrfStory,
        config: &SessionConfig, leaving_cores: Vec<(CoreIndex, GroupIndex)>)
        -> (r: Vec<(CoreIndex, OurAssignment)>) {
        Vec::new()
    }
}

/// The VRF capability: turns a block's VRF pre-digest and its epoch data
/// into the relay VRF story, when the pre-digest checks out against the
/// epoch.
pub trait VrfStorySource {
    /// The story derived from a pre-digest and epoch data, if any.
    spec fn story_spec(&self, vrf: VrfPreDigest, epoch: BabeEpoch) -> Option<VrfStory>;

    /// Computes the relay VRF story.
    fn compute_randomness(&self, vrf: &VrfPreDigest, epoch: &BabeEpoch)
        -> (r: Option<VrfStory>)
        ensures
            r == self.story_spec(*vrf, *epoch),
    ;
}

/// A story source that blends the epoch randomness, the epoch index and
/// the VRF output, and rejects an authority index outside the epoch's
/// authority set.
pub struct BlendedVrf;

impl VrfStorySource for BlendedVrf {
    open spec fn story_spec(&self, vrf: VrfPreDigest, epoch: BabeEpoch) -> Option<VrfStory> {
        if vrf.authority_index < epoch.n_authorities {
            Some(VrfStory(epoch.randomness ^ epoch.epoch_index ^ vrf.vrf_output))
        } else {
            None
        }
    }

    fn compute_randomness(&self, vrf: &VrfPreDigest, epoch: &BabeEpoch)
        -> (r: Option<VrfStory>) {
        if vrf.authority_index < epoch.n_authorities {
            Some(VrfStory(epoch.randomness ^ epoch.epoch_index ^ vrf.vrf_output))
        } else {
            None
        }
    }
}

/// The candidates a block's events report as included, in event order.
pub open spec fn included_candidates_of(events: Seq<CandidateEvent>)
    -> Seq<(CandidateHash, CandidateReceipt, CoreIndex, GroupIndex)>
    decreases events.len(),
{
    if events.len() == 0 {
        Seq::empty()
    } else {
        let rest = included_candidates_of(events.drop_last());
        match events.last() {
            CandidateEvent::CandidateIncluded(receipt, core, group) => rest.push(
                (receipt.hash_spec(), receipt, core, group)),
            _ => rest,
        }
    }
}

/// The (core, group) pairs of a list of included candidates.
pub open spec fn cores_of(included: Seq<(CandidateHash, CandidateReceipt, CoreIndex,
    GroupIndex)>) -> Seq<(CoreIndex, GroupIndex)> {
    included.map_values(|t: (CandidateHash, CandidateReceipt, CoreIndex, GroupIndex)|
        (t.2, t.3))
}

/// What the block-info extractor computes for one block, ready to be
/// persisted by the import coordinator.
pub struct ImportedBlockInfo {
    /// The candidates the block included.
    pub included_candidates: Vec<(CandidateHash, CandidateReceipt, CoreIndex, GroupIndex)>,
    /// The session governing the block.
    pub session_index: SessionIndex,
    /// This validator's assignments, by core.
    pub assignments: Vec<(CoreIndex, OurAssignment)>,
    /// The size of the session's validator set.
    pub n_validators: u32,
    /// The block's VRF story seed.
    pub relay_vrf_story: VrfStory,
    /// The slot the block was authored in.
    pub slot: Slot,
}

/// The mathematical model of an [`ImportedBlockInfo`].
pub ghost struct ImportedBlockInfoModel {
    /// The candidates the block included.
    pub included_candidates: Seq<(CandidateHash, CandidateReceipt, CoreIndex, GroupIndex)>,
    /// The session governing the block.
    pub session_index: SessionIndex,
    /// This validator's assignments, by core.
    pub assignments: Seq<(CoreIndex, OurAssignment)>,
    /// The size of the session's validator set.
    pub n_validators: u32,
    /// The block's VRF story seed.
    pub relay_vrf_story: VrfStory,
    /// The slot the block was authored in.
    pub slot: Slot,
}

impl View for ImportedBlockInfo {
    type V = ImportedBlockInfoModel;

    open spec fn view(&self) -> ImportedBlockInfoModel {
        ImportedBlockInfoModel {
            included_candidates: self.included_candidates@,
            session_index: self.session_index,
            assignments: self.assignments@,
            n_validators: self.n_validators,
            relay_vrf_story: self.relay_vrf_story,
            slot: self.slot,
        }
    }
}

/// What the block-info extractor reads besides the runtime: the session
/// window, the assignment criteria, the VRF capability and the local
/// keystore.
pub struct ImportedBlockInfoEnv<'a, A: AssignmentCriteria, V: VrfStorySource> {
    /// The current session window, read only.
    pub session_window: &'a RollingSessionWindow,
    /// The assignment-criteria capability.
    pub assignment_criteria: &'a A,
    /// The VRF capability.
    pub vrf_story_source: &'a V,
    /// The local signing-key store.
    pub keystore: &'a Keystore,
}

/// What `imported_block_info` returns: `None` as soon as any needed
/// piece is unavailable — candidate events, the session index, a session
/// within the window, the epoch data, the VRF pre-digest or the story
/// derived from it.
pub open spec fn block_info_spec<A: AssignmentCriteria, V: VrfStorySource>(
    rt: RuntimeModel,
    w: RollingSessionWindow,
    crit: &A,
    vrf_src: &V,
    keys: Seq<u64>,
    block_hash: BlockHash,
    header: Header,
) -> Option<ImportedBlockInfoModel> {
    if !rt.events.contains_key(block_hash) {
        None
    } else if !rt.session_index.contains_key(header.parent_hash) {
        None
    } else {
        let included = included_candidates_of(rt.events[block_hash]);
        let s = rt.session_index[header.parent_hash];
        if w.earliest_session is None || s < w.earliest_session->Some_0 {
            None
        } else if !rt.epochs.contains_key(block_hash) {
            None
        } else if !w.covers(s) {
            None
        } else {
            let epoch = rt.epochs[block_hash];
            let sinfo = w.info_at(s);
            match header.digest.vrf {
                None => None,
                Some(vrf) => match vrf_src.story_spec(vrf, epoch) {
                    None => None,
                    Some(story) => Some(ImportedBlockInfoModel {
                        included_candidates: included,
                        session_index: s,
                        assignments: crit.assignments_spec(keys, story, config_of(sinfo),
                            cores_of(included)),
                        n_validators: sinfo.n_validators,
                        relay_vrf_story: story,
                        slot: vrf.slot,
                    }),
                },
            }
        }
    }
}

/// A block whose header carries no VRF pre-digest yields no block info,
/// whatever else is available.
pub proof fn lemma_no_vrf_no_info<A: AssignmentCriteria, V: VrfStorySource>(
    rt: RuntimeModel, w: RollingSessionWindow, crit: &A, vrf_src: &V, keys: Seq<u64>,
    block_hash: BlockHash, header: Header)
    requires
        header.digest.vrf is None,
    ensures
        block_info_spec(rt, w, crit, vrf_src, keys, block_hash, header) is None,
{
}

/// A block governed by a session before the window's earliest cached
/// session — in particular any block while the window is empty — yields
/// no block info.
pub proof fn lemma_ancient_session_no_info<A: AssignmentCriteria, V: VrfStorySource>(
    rt: RuntimeModel, w: RollingSessionWindow, crit: &A, vrf_src: &V, keys: Seq<u64>,
    block_hash: BlockHash, header: Header)
    requires
        rt.session_index.contains_key(header.parent_hash),
        w.earliest_session is None || rt.session_index[header.parent_hash]
            < w.earliest_session->Some_0,
    ensures
        block_info_spec(rt, w, crit, vrf_src, keys, block_hash, header) is None,
{
}

/// Computes the approval-relevant information of one imported block;
/// `None` skips the block without failing the import of its siblings.
pub fn imported_block_info<R: RuntimeApi, A: AssignmentCriteria, V: VrfStorySource>(
    runtime: &R,
    env: ImportedBlockInfoEnv<'_, A, V>,
    block_hash: BlockHash,
    block_header: &Header,
) -> (r: Option<ImportedBlockInfo>)
    requires
        runtime.inv(),
    ensures
        ({
            let spec_r = block_info_spec(runtime.model(), *env.session_window,
                env.assignment_criteria, env.vrf_story_source, env.keystore.keys@,
                block_hash, *block_header);
            &&& (r is Some <==> spec_r is Some)
            &&& (r matches Some(info) ==> info@ == spec_r->Some_0)
        }),
{
    let ghost rt = runtime.model();

    // Candidate events, filtered to inclusions.
    let events = match runtime.candidate_events(block_hash) {
        None => {
            return None;
        }
        Some(events) => events,
    };
    let ghost events_seq = events@;
    let mut included: Vec<(CandidateHash, CandidateReceipt, CoreIndex, GroupIndex)> =
        Vec::new();
    let mut i: usize = 0;
    while i < events.len()
        invariant
            i <= events@.len(),
            included@ == included_candidates_of(events@.take(i as int)),
        decreases events@.len() - i,
    {
        proof {
            assert(events@.take(i as int + 1).drop_last() =~= events@.take(i as int));
            assert(events@.take(i as int + 1).last() == events@[i as int]);
        }
        match events[i] {
            CandidateEvent::CandidateIncluded(receipt, core, group) => {
                let hash = receipt.hash();
                included.push((hash, receipt, core, group));
            }
            _ => {}
        }
        i = i + 1;
    }
    proof {
        assert(events@.take(events@.len() as int) =~= events@);
    }

    // The session governing the block, from the parent's state; skip
    // blocks from before the window.
    let session_index = match runtime.session_index_for_child(block_header.parent_hash) {
        None => {
            return None;
        }
        Some(s) => s,
    };
    match env.session_window.earliest_session {
        None => {
            return None;
        }
        Some(earliest) => {
            if session_index < earliest {
                return None;
            }
        }
    }

    // The VRF epoch data, at the block's own post-state: epochs are
    // self-describing per block, while the session index is governed by
    // the parent.
    let epoch = match runtime.current_epoch(block_hash) {
        None => {
            return None;
        }
        Some(e) => e,
    };

    let session_info = match env.session_window.session_info(session_index) {
        None => {
            return None;
        }
        Some(s) => s,
    };

    let vrf = match block_header.digest.vrf {
        None => {
            return None;
        }
        Some(v) => v,
    };

    let story = match env.vrf_story_source.compute_randomness(&vrf, &epoch) {
        None => {
            return None;
        }
        Some(s) => s,
    };

    // This validator's assignments for the leaving cores.
    let mut leaving_cores: Vec<(CoreIndex, GroupIndex)> = Vec::new();
    let mut j: usize = 0;
    while j < included.len()
        invariant
            j <= included@.len(),
            leaving_cores@ =~= cores_of(included@.take(j as int)),
        decreases included@.len() - j,
    {
        let (_, _, core, group) = included[j];
        leaving_cores.push((core, group));
        proof {
            assert(cores_of(included@.take(j as int + 1)) =~= cores_of(included@.take(
                j as int)).push((included@[j as int].2, included@[j as int].3)));
        }
        j = j + 1;
    }
    proof {
        assert(included@.take(included@.len() as int) =~= included@);
    }
    let config = SessionConfig::from_info(&session_info);
    let assignments = env.assignment_criteria.compute_assignments(env.keystore, story,
        &config, leaving_cores);

    let n_validators = session_info.n_validators;
    Some(ImportedBlockInfo {
        included_candidates: included,
        session_index,
        assignments,
        n_validators,
        relay_vrf_story: story,
        slot: vrf.slot,
    })
}

} // verus!
