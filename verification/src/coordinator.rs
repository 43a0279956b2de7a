//! The import coordinator: handling one new-head notification.

use vstd::prelude::*;

use crate::api::{ApprovalDb, ChainApi, ChainApiError, chain_wf, info_for, RuntimeApi,
    RuntimeModel};
use crate::block_info::{AssignmentCriteria, block_info_spec, imported_block_info,
    ImportedBlockInfoEnv, ImportedBlockInfoModel, VrfStorySource};
use crate::cache::{cache_session_info_for_head, fetch_range, query_hash, SessionsUnavailable,
    sessions_available, window_update};
use crate::entries::{BlockEntry, CandidateEntry, NewCandidateInfo};
use crate::bitfield::Bitfield;
use crate::primitives::{BlockHash, BlockNumber, CandidateHash, CoreIndex, Header, Keystore,
    OurAssignment, SessionIndex, Slot, Tick};
use crate::walker::{determine_new_blocks, lemma_new_blocks_fresh, new_blocks_spec};
use crate::window::RollingSessionWindow;

verus! {

/// Milliseconds per approval-scheduling tick.
pub const TICK_DURATION_MILLIS: u64 = 500;

/// The tick a slot converts to: the slot number times the ticks per
/// slot, saturated at the largest tick.
pub open spec fn ticks_of(slot_duration_millis: u64, slot: Slot) -> Tick {
    let ticks_per_slot = slot_duration_millis / TICK_DURATION_MILLIS;
    if slot * ticks_per_slot > u64::MAX {
        u64::MAX
    } else {
        (slot * ticks_per_slot) as Tick
    }
}

/// A later slot never converts to an earlier tick.
pub proof fn lemma_ticks_monotonic(slot_duration_millis: u64, s1: Slot, s2: Slot)
    requires
        s1 <= s2,
    ensures
        ticks_of(slot_duration_millis, s1) <= ticks_of(slot_duration_millis, s2),
{
    let t = slot_duration_millis / TICK_DURATION_MILLIS;
    assert(s1 * t <= s2 * t) by (nonlinear_arith)
        requires
            s1 <= s2,
            t >= 0,
    {
    }
}

/// Converts a slot number to a tick, monotonically in the slot.
pub fn slot_number_to_tick(slot_duration_millis: u64, slot: Slot) -> (t: Tick)
    ensures
        t == ticks_of(slot_duration_millis, slot),
{
    let ticks_per_slot = slot_duration_millis / TICK_DURATION_MILLIS;
    if ticks_per_slot == 0 {
        0
    } else if slot > u64::MAX / ticks_per_slot {
        proof {
            assert(slot * ticks_per_slot > u64::MAX) by (nonlinear_arith)
                requires
                    slot > u64::MAX / ticks_per_slot,
                    ticks_per_slot > 0,
            {
                vstd::arithmetic::div_mod::lemma_fundamental_div_mod(u64::MAX as int,
                    ticks_per_slot as int);
            }
        }
        u64::MAX
    } else {
        proof {
            assert(slot * ticks_per_slot <= u64::MAX) by (nonlinear_arith)
                requires
                    slot <= u64::MAX / ticks_per_slot,
                    ticks_per_slot > 0,
            {
                vstd::arithmetic::div_mod::lemma_fundamental_div_mod(u64::MAX as int,
                    ticks_per_slot as int);
            }
        }
        slot * ticks_per_slot
    }
}

/// The approval metadata of one imported block, sent downstream in a
/// batch.
pub struct BlockApprovalMeta {
    /// Hash of the block.
    pub hash: BlockHash,
    /// Height of the block.
    pub number: BlockNumber,
    /// Hash of the parent block.
    pub parent_hash: BlockHash,
    /// The hashes of the included candidates.
    pub candidates: Vec<CandidateHash>,
    /// The slot the block was authored in.
    pub slot: Slot,
}

/// The mathematical model of a [`BlockApprovalMeta`].
pub ghost struct BlockApprovalMetaModel {
    /// Hash of the block.
    pub hash: BlockHash,
    /// Height of the block.
    pub number: BlockNumber,
    /// Hash of the parent block.
    pub parent_hash: BlockHash,
    /// The hashes of the included candidates.
    pub candidates: Seq<CandidateHash>,
    /// The slot the block was authored in.
    pub slot: Slot,
}

impl View for BlockApprovalMeta {
    type V = BlockApprovalMetaModel;

    open spec fn view(&self) -> BlockApprovalMetaModel {
        BlockApprovalMetaModel {
            hash: self.hash,
            number: self.number,
            parent_hash: self.parent_hash,
            candidates: self.candidates@,
            slot: self.slot,
        }
    }
}

/// The downstream sink that receives one metadata batch per handled
/// head; fire and forget.
pub trait MetadataSink {
    /// The batches delivered so far.
    spec fn batches(&self) -> Seq<Seq<BlockApprovalMetaModel>>;

    /// Delivers one batch of per-block approval metadata.
    fn new_blocks(&mut self, meta: Vec<BlockApprovalMeta>)
        ensures
            final(self).batches() == old(self).batches().push(meta@.map_values(
                |m: BlockApprovalMeta| m@)),
    ;
}

/// A sink that keeps every delivered batch in memory.
pub struct MemorySink {
    log: Vec<Vec<BlockApprovalMeta>>,
}

impl MemorySink {
    /// A sink with nothing delivered yet.
    pub fn new() -> (r: MemorySink)
        ensures
            r.batches() == Seq::<Seq<BlockApprovalMetaModel>>::empty(),
    {
        MemorySink { log: Vec::new() }
    }

    /// How many batches have been delivered.
    pub fn batch_count(&self) -> (r: usize)
        ensures
            r == self.batches().len(),
    {
        self.log.len()
    }

    /// The metadata records of batch `i`.
    pub fn batch(&self, i: usize) -> (r: &Vec<BlockApprovalMeta>)
        requires
            i < self.batches().len(),
        ensures
            r@.map_values(|m: BlockApprovalMeta| m@) == self.batches()[i as int],
    {
        &self.log[i]
    }
}

impl MetadataSink for MemorySink {
    closed spec fn batches(&self) -> Seq<Seq<BlockApprovalMetaModel>> {
        self.log@.map_values(|v: Vec<BlockApprovalMeta>| v@.map_values(
            |m: BlockApprovalMeta| m@))
    }

    fn new_blocks(&mut self, meta: Vec<BlockApprovalMeta>) {
        self.log.push(meta);
        proof {
            assert(final(self).batches() =~= old(self).batches().push(meta@.map_values(
                |m: BlockApprovalMeta| m@)));
        }
    }
}

/// The long-lived state of the import subsystem.
pub struct State<D: ApprovalDb, A: AssignmentCriteria, V: VrfStorySource> {
    /// The rolling window of session information.
    pub session_window: RollingSessionWindow,
    /// The local signing-key store.
    pub keystore: Keystore,
    /// How long one slot lasts.
    pub slot_duration_millis: u64,
    /// The tracked-block store the ancestry walk consults.
    pub db: D,
    /// The assignment-criteria capability.
    pub assignment_criteria: A,
    /// The VRF capability.
    pub vrf_story_source: V,
}

/// A block imported under a new head, with the candidate entries
/// recorded for it and its approval-scheduling parameters.
pub struct BlockImportedCandidates {
    /// Hash of the imported block.
    pub block_hash: BlockHash,
    /// Height of the imported block.
    pub block_number: BlockNumber,
    /// The tick the block's slot converts to.
    pub block_tick: Tick,
    /// The no-show timeout of the block's session, in ticks.
    pub no_show_duration: Tick,
    /// The candidate entries recorded for the block's included
    /// candidates, in core order.
    pub imported_candidates: Vec<(CandidateHash, CandidateEntry)>,
}

/// The blocks of a walked ancestry that yield block info, oldest first,
/// each with that info.
pub open spec fn processed_blocks<A: AssignmentCriteria, V: VrfStorySource>(
    rt: RuntimeModel,
    w: RollingSessionWindow,
    crit: &A,
    vrf_src: &V,
    keys: Seq<u64>,
    blocks: Seq<(BlockHash, Header)>,
) -> Seq<((BlockHash, Header), ImportedBlockInfoModel)>
    decreases blocks.len(),
{
    if blocks.len() == 0 {
        Seq::empty()
    } else {
        let rest = processed_blocks(rt, w, crit, vrf_src, keys, blocks.drop_last());
        match block_info_spec(rt, w, crit, vrf_src, keys, blocks.last().0, blocks.last().1) {
            Some(info) => rest.push((blocks.last(), info)),
            None => rest,
        }
    }
}

/// Every processed block is one of the walked blocks.
proof fn lemma_processed_are_blocks<A: AssignmentCriteria, V: VrfStorySource>(
    rt: RuntimeModel,
    w: RollingSessionWindow,
    crit: &A,
    vrf_src: &V,
    keys: Seq<u64>,
    blocks: Seq<(BlockHash, Header)>,
)
    ensures
        ({
            let pb = processed_blocks(rt, w, crit, vrf_src, keys, blocks);
            forall|k: int| 0 <= k < pb.len() ==> exists|j: int| 0 <= j < blocks.len()
                && (#[trigger] pb[k]).0 == blocks[j]
        }),
    decreases blocks.len(),
{
    if blocks.len() > 0 {
        lemma_processed_are_blocks(rt, w, crit, vrf_src, keys, blocks.drop_last());
        let pb = processed_blocks(rt, w, crit, vrf_src, keys, blocks);
        let rest = processed_blocks(rt, w, crit, vrf_src, keys, blocks.drop_last());
        assert forall|k: int| 0 <= k < pb.len() implies exists|j: int| 0 <= j
            < blocks.len() && (#[trigger] pb[k]).0 == blocks[j] by {
            if k < rest.len() {
                let j = choose|j: int| 0 <= j < blocks.drop_last().len()
                    && rest[k].0 == blocks.drop_last()[j];
                assert(blocks.drop_last()[j] == blocks[j]);
                assert(pb[k] == rest[k]);
            } else {
                assert(pb[k].0 == blocks.last());
                assert(blocks.last() == blocks[blocks.len() - 1]);
            }
        }
    }
}

/// The metadata record announced for one processed block.
pub open spec fn meta_of(p: ((BlockHash, Header), ImportedBlockInfoModel))
    -> BlockApprovalMetaModel {
    BlockApprovalMetaModel {
        hash: p.0.0,
        number: p.0.1.number,
        parent_hash: p.0.1.parent_hash,
        candidates: p.1.included_candidates.map_values(
            |t: (CandidateHash, crate::primitives::CandidateReceipt, CoreIndex,
                crate::primitives::GroupIndex)| t.0),
        slot: p.1.slot,
    }
}

/// This validator's assignment for `core`, if the criteria produced
/// one.
pub open spec fn assignment_for(assignments: Seq<(CoreIndex, OurAssignment)>,
    core: CoreIndex) -> Option<OurAssignment>
    decreases assignments.len(),
{
    if assignments.len() == 0 {
        None
    } else if assignments[0].0 == core {
        Some(assignments[0].1)
    } else {
        assignment_for(assignments.drop_first(), core)
    }
}

fn find_assignment(assignments: &Vec<(CoreIndex, OurAssignment)>, core: CoreIndex)
    -> (r: Option<OurAssignment>)
    ensures
        r == assignment_for(assignments@, core),
{
    proof {
        assert(assignments@.skip(0) =~= assignments@);
    }
    let mut j: usize = 0;
    while j < assignments.len()
        invariant
            j <= assignments@.len(),
            assignment_for(assignments@, core) == assignment_for(assignments@.skip(j as int),
                core),
        decreases assignments@.len() - j,
    {
        if assignments[j].0 == core {
            proof {
                assert(assignments@.skip(j as int)[0] == assignments@[j as int]);
            }
            return Some(assignments[j].1);
        }
        proof {
            assert(assignments@.skip(j as int).drop_first() =~= assignments@.skip(
                j as int + 1));
        }
        j = j + 1;
    }
    proof {
        assert(assignments@.skip(assignments@.len() as int) =~= Seq::<(CoreIndex,
            OurAssignment)>::empty());
    }
    None
}

/// Whether the session-window update for this head goes through: the
/// session index resolves and, where sessions must be fetched, all of
/// them are served.
pub open spec fn session_update_ok(w: RollingSessionWindow, rt: RuntimeModel,
    head: BlockHash, hd: Header) -> bool {
    &&& rt.session_index.contains_key(query_hash(head, hd))
    &&& match fetch_range(w.earliest_session, w.session_info@,
        rt.session_index[query_hash(head, hd)]) {
        None => true,
        Some(range) => sessions_available(rt, head, range.0, range.1),
    }
}

/// The earliest session and contents of the window after a successful
/// update for this head.
pub open spec fn session_window_after(w: RollingSessionWindow, rt: RuntimeModel,
    head: BlockHash, hd: Header) -> (Option<SessionIndex>, Seq<crate::primitives::SessionInfo>) {
    let s = rt.session_index[query_hash(head, hd)];
    match fetch_range(w.earliest_session, w.session_info@, s) {
        None => (w.earliest_session, w.session_info@),
        Some(range) => window_update(w.earliest_session, w.session_info@, rt, head, s),
    }
}

/// The look-back height for a head: the reported finalized height, or
/// one below the head while no finality notification has been seen.
/// What the persisted entry of a processed block holds, apart from its
/// children list, which later imports keep extending.
pub open spec fn entry_fields_of(p: ((BlockHash, Header), ImportedBlockInfoModel),
    e: crate::entries::BlockEntryModel) -> bool {
    &&& e.block_hash == p.0.0
    &&& e.parent_hash == p.0.1.parent_hash
    &&& e.block_number == p.0.1.number
    &&& e.session == p.1.session_index
    &&& e.slot == p.1.slot
    &&& e.relay_vrf_story == p.1.relay_vrf_story
    &&& e.candidates == p.1.included_candidates.map_values(
        |t: (CandidateHash, crate::primitives::CandidateReceipt, CoreIndex,
            crate::primitives::GroupIndex)| (t.2, t.0))
    &&& e.approved_bitfield == Seq::new(p.1.included_candidates.len(), |i: int| false)
}

pub open spec fn lookback_of(finalized_number: Option<BlockNumber>, header: Header)
    -> BlockNumber {
    match finalized_number {
        Some(n) => n,
        None => if header.number == 0 {
            0
        } else {
            (header.number - 1) as BlockNumber
        },
    }
}

/// Handles a new-head notification: updates the session window, walks
/// the ancestry for untracked blocks, extracts block info for each of
/// them oldest first, persists block and candidate entries, announces
/// the batch of approval metadata downstream, and returns the imported
/// blocks with their candidates and scheduling parameters.
///
/// A failing header lookup is reported to the caller; an unknown head or
/// a failed session update imports nothing and leaves every store
/// untouched, to be retried on the next notification. A block whose
/// info cannot be extracted is skipped without affecting its siblings.
#[verifier::rlimit(80)]
pub fn handle_new_head<
    C: ChainApi,
    R: RuntimeApi,
    D: ApprovalDb,
    A: AssignmentCriteria,
    V: VrfStorySource,
    W: ApprovalDb,
    S: MetadataSink,
>(
    chain: &C,
    runtime: &R,
    state: &mut State<D, A, V>,
    db_writer: &mut W,
    sink: &mut S,
    head: BlockHash,
    finalized_number: &Option<BlockNumber>,
) -> (r: Result<Vec<BlockImportedCandidates>, ChainApiError>)
    requires
        chain.inv(),
        runtime.inv(),
        old(state).db.inv(),
        old(db_writer).inv(),
        chain_wf(chain.model()),
        old(state).session_window.wf(),
        old(db_writer).blocks() == old(state).db.blocks(),
    ensures
        final(state).session_window.wf(),
        final(db_writer).inv(),
        final(state).keystore == old(state).keystore,
        final(state).slot_duration_millis == old(state).slot_duration_millis,
        final(state).db == old(state).db,
        final(state).assignment_criteria == old(state).assignment_criteria,
        final(state).vrf_story_source == old(state).vrf_story_source,
        r is Err <==> chain.model().header_failures.contains(head),
        (r is Err || !chain.model().headers.contains_key(head)) ==> {
            &&& final(state).session_window.earliest_session
                == old(state).session_window.earliest_session
            &&& final(state).session_window.session_info@
                == old(state).session_window.session_info@
            &&& final(db_writer).blocks() == old(db_writer).blocks()
            &&& final(db_writer).candidates() == old(db_writer).candidates()
            &&& final(sink).batches() == old(sink).batches()
        },
        (!chain.model().header_failures.contains(head)
            && !chain.model().headers.contains_key(head))
            ==> (r matches Ok(v) && v@.len() == 0),
        (!chain.model().header_failures.contains(head)
            && chain.model().headers.contains_key(head)
            && !session_update_ok(old(state).session_window, runtime.model(), head,
                chain.model().headers[head])) ==> {
            &&& r matches Ok(v) && v@.len() == 0
            &&& final(state).session_window.earliest_session
                == old(state).session_window.earliest_session
            &&& final(state).session_window.session_info@
                == old(state).session_window.session_info@
            &&& final(db_writer).blocks() == old(db_writer).blocks()
            &&& final(db_writer).candidates() == old(db_writer).candidates()
            &&& final(sink).batches() == old(sink).batches()
        },
        (!chain.model().header_failures.contains(head)
            && chain.model().headers.contains_key(head)
            && session_update_ok(old(state).session_window, runtime.model(), head,
                chain.model().headers[head])) ==> {
            let hd = chain.model().headers[head];
            let w2 = final(state).session_window;
            let nb = new_blocks_spec(chain.model(), old(state).db.blocks().dom(), head, hd,
                lookback_of(*finalized_number, hd));
            let pb = processed_blocks(runtime.model(), w2, &final(state).assignment_criteria,
                &final(state).vrf_story_source, final(state).keystore.keys@, nb);
            &&& (w2.earliest_session, w2.session_info@) == session_window_after(
                old(state).session_window, runtime.model(), head, hd)
            &&& r matches Ok(v)
            &&& r->Ok_0@.len() == pb.len()
            &&& forall|k: int| 0 <= k < pb.len() ==> {
                &&& (#[trigger] r->Ok_0@[k]).block_hash == pb[k].0.0
                &&& r->Ok_0@[k].block_number == pb[k].0.1.number
                &&& r->Ok_0@[k].block_tick == ticks_of(final(state).slot_duration_millis,
                    pb[k].1.slot)
                &&& r->Ok_0@[k].no_show_duration == ticks_of(
                    final(state).slot_duration_millis,
                    w2.info_at(pb[k].1.session_index).no_show_slots as u64)
                &&& r->Ok_0@[k].imported_candidates@.len()
                    == pb[k].1.included_candidates.len()
                &&& forall|q: int| 0 <= q < pb[k].1.included_candidates.len()
                    ==> (#[trigger] r->Ok_0@[k].imported_candidates@[q]).0
                        == pb[k].1.included_candidates[q].0
            }
            &&& forall|k: int| 0 <= k < pb.len() ==> {
                &&& final(db_writer).blocks().contains_key((#[trigger] pb[k]).0.0)
                &&& entry_fields_of(pb[k], final(db_writer).blocks()[pb[k].0.0])
            }
            &&& forall|k: int| #![trigger pb[k]] 0 <= k < pb.len()
                ==> forall|q: int| 0 <= q < pb[k].1.included_candidates.len() ==> {
                    let key = (#[trigger] r->Ok_0@[k].imported_candidates@[q]).0;
                    &&& final(db_writer).candidates().contains_key(key)
                    &&& r->Ok_0@[k].imported_candidates@[q].1@
                        == final(db_writer).candidates()[key]
                }
            &&& final(sink).batches() == old(sink).batches().push(pb.map_values(
                |p: ((BlockHash, Header), ImportedBlockInfoModel)| meta_of(p)))
        },
{
    let ghost m = chain.model();
    let ghost rt = runtime.model();

    // The head's own header; a failed lookup is propagated, an unknown
    // head means nothing to do.
    let header = match chain.block_header(head) {
        Err(e) => {
            return Err(e);
        }
        Ok(None) => {
            return Ok(Vec::new());
        }
        Ok(Some(h)) => h,
    };

    // Update the session window first: stale session data must never
    // feed assignment computation.
    match cache_session_info_for_head(runtime, &mut state.session_window, head, &header) {
        Err(SessionsUnavailable) => {
            return Ok(Vec::new());
        }
        Ok(()) => {}
    }

    // Without a finality notification yet, look back a single block.
    let fin: BlockNumber = match finalized_number {
        Some(n) => *n,
        None => if header.number == 0 {
            0
        } else {
            header.number - 1
        },
    };

    let new_blocks = determine_new_blocks(chain, &state.db, head, &header, fin);
    proof {
        lemma_new_blocks_fresh(m, old(state).db.blocks().dom(), head, header, fin);
    }

    let ghost st = *state;
    let ghost nb = new_blocks@;
    let ghost sd = state.slot_duration_millis;

    let mut imported: Vec<BlockImportedCandidates> = Vec::new();
    let mut approval_meta: Vec<BlockApprovalMeta> = Vec::new();
    let mut i: usize = 0;
    proof {
        assert(nb.take(0) =~= Seq::<(BlockHash, Header)>::empty());
    }
    while i < new_blocks.len()
        invariant
            runtime.inv(),
            db_writer.inv(),
            rt == runtime.model(),
            *state == st,
            st.session_window.wf(),
            nb == new_blocks@,
            sd == st.slot_duration_millis,
            i <= nb.len(),
            forall|k: int| 0 <= k < nb.len()
                ==> !old(state).db.blocks().contains_key((#[trigger] nb[k]).0),
            forall|k: int, l: int| 0 <= k < l < nb.len()
                ==> (#[trigger] nb[k]).0 != (#[trigger] nb[l]).0,
            old(db_writer).blocks() == old(state).db.blocks(),
            forall|h: BlockHash| #[trigger] db_writer.blocks().contains_key(h)
                ==> old(db_writer).blocks().contains_key(h)
                    || exists|k: int| 0 <= k < i && (#[trigger] nb[k]).0 == h,
            imported@.len() == processed_blocks(rt, st.session_window,
                &st.assignment_criteria, &st.vrf_story_source, st.keystore.keys@,
                nb.take(i as int)).len(),
            forall|k: int| 0 <= k < imported@.len() ==> {
                let p = processed_blocks(rt, st.session_window, &st.assignment_criteria,
                    &st.vrf_story_source, st.keystore.keys@, nb.take(i as int))[k];
                &&& (#[trigger] imported@[k]).block_hash == p.0.0
                &&& imported@[k].block_number == p.0.1.number
                &&& imported@[k].block_tick == ticks_of(sd, p.1.slot)
                &&& imported@[k].no_show_duration == ticks_of(sd, st.session_window.info_at(
                    p.1.session_index).no_show_slots as u64)
                &&& imported@[k].imported_candidates@.len()
                    == p.1.included_candidates.len()
                &&& forall|q: int| 0 <= q < p.1.included_candidates.len()
                    ==> (#[trigger] imported@[k].imported_candidates@[q]).0
                        == p.1.included_candidates[q].0
            },
            approval_meta@.len() == processed_blocks(rt, st.session_window,
                &st.assignment_criteria, &st.vrf_story_source, st.keystore.keys@,
                nb.take(i as int)).len(),
            forall|k: int| 0 <= k < approval_meta@.len()
                ==> (#[trigger] approval_meta@[k])@ == meta_of(processed_blocks(rt,
                    st.session_window, &st.assignment_criteria, &st.vrf_story_source,
                    st.keystore.keys@, nb.take(i as int))[k]),
            forall|k: int| 0 <= k < imported@.len() ==> {
                let p = processed_blocks(rt, st.session_window, &st.assignment_criteria,
                    &st.vrf_story_source, st.keystore.keys@, nb.take(i as int))[k];
                &&& db_writer.blocks().contains_key((#[trigger] imported@[k]).block_hash)
                &&& entry_fields_of(p, db_writer.blocks()[imported@[k].block_hash])
            },
            forall|k: int| #![trigger imported@[k]] 0 <= k < imported@.len()
                ==> forall|q: int| 0 <= q < imported@[k].imported_candidates@.len() ==> {
                    let key = (#[trigger] imported@[k].imported_candidates@[q]).0;
                    &&& db_writer.candidates().contains_key(key)
                    &&& imported@[k].imported_candidates@[q].1@
                        == db_writer.candidates()[key]
                },
        decreases nb.len() - i,
    {
        let (block_hash_i, block_header_i) = new_blocks[i];
        let ghost prefix = processed_blocks(rt, st.session_window, &st.assignment_criteria,
            &st.vrf_story_source, st.keystore.keys@, nb.take(i as int));
        proof {
            assert(nb.take(i as int + 1).drop_last() =~= nb.take(i as int));
            assert(nb.take(i as int + 1).last() == nb[i as int]);
        }

        let env = ImportedBlockInfoEnv {
            session_window: &state.session_window,
            assignment_criteria: &state.assignment_criteria,
            vrf_story_source: &state.vrf_story_source,
            keystore: &state.keystore,
        };
        match imported_block_info(runtime, env, block_hash_i, &block_header_i) {
            None => {}
            Some(info) => {
                let ghost im = info@;
                let ghost inc = info.included_candidates@;

                // The block's candidate list, the fresh-candidate info,
                // and the metadata candidate hashes, in core order.
                let mut cand_pairs: Vec<(CoreIndex, CandidateHash)> = Vec::new();
                let mut infos: Vec<(CandidateHash, NewCandidateInfo)> = Vec::new();
                let mut meta_cands: Vec<CandidateHash> = Vec::new();
                let mut j: usize = 0;
                while j < info.included_candidates.len()
                    invariant
                        j <= inc.len(),
                        inc == info.included_candidates@,
                        cand_pairs@.len() == j,
                        infos@.len() == j,
                        meta_cands@.len() == j,
                        forall|q: int| 0 <= q < j ==> {
                            &&& (#[trigger] cand_pairs@[q]) == (inc[q].2, inc[q].0)
                            &&& infos@[q].0 == inc[q].0
                            &&& infos@[q].1.candidate == inc[q].1
                            &&& infos@[q].1.backing_group == inc[q].3
                            &&& meta_cands@[q] == inc[q].0
                        },
                    decreases inc.len() - j,
                {
                    let (cand_hash, receipt, core, group) = info.included_candidates[j];
                    let our_assignment = find_assignment(&info.assignments, core);
                    cand_pairs.push((core, cand_hash));
                    infos.push((cand_hash, NewCandidateInfo {
                        candidate: receipt,
                        backing_group: group,
                        our_assignment,
                    }));
                    meta_cands.push(cand_hash);
                    j = j + 1;
                }

                let n_candidates = info.included_candidates.len();
                let entry = BlockEntry {
                    block_hash: block_hash_i,
                    parent_hash: block_header_i.parent_hash,
                    block_number: block_header_i.number,
                    session: info.session_index,
                    slot: info.slot,
                    relay_vrf_story: info.relay_vrf_story,
                    candidates: cand_pairs,
                    approved_bitfield: Bitfield::repeat(false, n_candidates),
                    children: Vec::new(),
                };
                proof {
                    assert forall|q: int| 0 <= q < entry.candidates@.len()
                        implies info_for(infos@, (#[trigger] entry.candidates@[q]).1)
                            is Some by {
                        assert(infos@[q].0 == entry.candidates@[q].1);
                        crate::api::lemma_info_for_present(infos@, q);
                    }
                    assert(!db_writer.blocks().contains_key(block_hash_i));
                }
                let n_validators = info.n_validators as usize;
                let ghost entry_model = entry@;
                let ghost blocks_before = db_writer.blocks();
                let ghost cands_before = db_writer.candidates();
                let candidate_entries = db_writer.add_block_entry(entry, n_validators,
                    &infos);
                proof {
                    // The stored entry carries exactly what was computed
                    // for this block.
                    assert((block_hash_i, block_header_i) == nb[i as int]);
                    let want = im.included_candidates.map_values(
                        |t: (CandidateHash, crate::primitives::CandidateReceipt, CoreIndex,
                            crate::primitives::GroupIndex)| (t.2, t.0));
                    assert forall|q: int| 0 <= q < want.len()
                        implies want[q] == entry_model.candidates[q] by {
                        assert(cand_pairs@[q] == (inc[q].2, inc[q].0));
                        assert(want[q] == (im.included_candidates[q].2,
                            im.included_candidates[q].0));
                    }
                    assert(want =~= entry_model.candidates);
                    let zeros = Seq::new(im.included_candidates.len(), |b: int| false);
                    assert forall|q: int| 0 <= q < zeros.len()
                        implies zeros[q] == entry_model.approved_bitfield[q] by {}
                    assert(zeros =~= entry_model.approved_bitfield);
                    assert(entry_fields_of((nb[i as int], im), entry_model));

                    // Existing entries are untouched, apart from the
                    // parent gaining a child.
                    let merged = crate::api::merge_candidates(cands_before,
                        entry_model.candidates, infos@, entry_model.session,
                        n_validators as nat);
                    assert forall|key: CandidateHash| cands_before.contains_key(key)
                        implies #[trigger] merged.contains_key(key)
                            && merged[key] == cands_before[key] by {
                        crate::api::lemma_merge_preserves(cands_before,
                            entry_model.candidates, infos@, entry_model.session,
                            n_validators as nat, key);
                    }
                    assert(db_writer.candidates() == merged);
                    lemma_processed_are_blocks(rt, st.session_window,
                        &st.assignment_criteria, &st.vrf_story_source, st.keystore.keys@,
                        nb.take(i as int));
                    assert forall|k: int| 0 <= k < prefix.len()
                        implies (#[trigger] prefix[k]).0.0 != block_hash_i by {
                        let j = choose|j: int| 0 <= j < nb.take(i as int).len()
                            && prefix[k].0 == nb.take(i as int)[j];
                        assert(nb.take(i as int)[j] == nb[j]);
                        assert(nb[j].0 != nb[i as int].0);
                    }
                }

                // Scheduling parameters from the slot and the session's
                // no-show allowance.
                let session_info = match state.session_window.session_info(
                    info.session_index) {
                    Some(si) => si,
                    None => {
                        proof {
                            assert(false);
                        }
                        vstd::pervasive::unreached()
                    }
                };
                let block_tick = slot_number_to_tick(state.slot_duration_millis, info.slot);
                let no_show_duration = slot_number_to_tick(state.slot_duration_millis,
                    session_info.no_show_slots as u64);

                approval_meta.push(BlockApprovalMeta {
                    hash: block_hash_i,
                    number: block_header_i.number,
                    parent_hash: block_header_i.parent_hash,
                    candidates: meta_cands,
                    slot: info.slot,
                });
                imported.push(BlockImportedCandidates {
                    block_hash: block_hash_i,
                    block_number: block_header_i.number,
                    block_tick,
                    no_show_duration,
                    imported_candidates: candidate_entries,
                });
                proof {
                    let pnew = processed_blocks(rt, st.session_window,
                        &st.assignment_criteria, &st.vrf_story_source, st.keystore.keys@,
                        nb.take(i as int + 1));
                    assert(pnew == prefix.push((nb[i as int], im)));
                    let mc = meta_of((nb[i as int], im)).candidates;
                    assert forall|q: int| 0 <= q < mc.len() implies mc[q] == meta_cands@[q]
                        by {
                        assert(cand_pairs@[q] == (inc[q].2, inc[q].0));
                        assert(mc[q] == im.included_candidates[q].0);
                    }
                    assert(mc =~= meta_cands@);
                    assert(approval_meta@.last()@ == meta_of((nb[i as int], im)));
                }
            }
        }
        i = i + 1;
    }
    proof {
        assert(nb.take(nb.len() as int) =~= nb);
    }

    sink.new_blocks(approval_meta);
    proof {
        let pbv = processed_blocks(rt, st.session_window, &st.assignment_criteria,
            &st.vrf_story_source, st.keystore.keys@, nb);
        assert forall|k: int| 0 <= k < pbv.len()
            implies db_writer.blocks().contains_key((#[trigger] pbv[k]).0.0)
                && entry_fields_of(pbv[k], db_writer.blocks()[pbv[k].0.0]) by {
            assert(imported@[k].block_hash == pbv[k].0.0);
        }
        assert forall|k: int| #![trigger pbv[k]] 0 <= k < pbv.len()
            implies forall|q: int| 0 <= q < pbv[k].1.included_candidates.len() ==> {
                let key = (#[trigger] imported@[k].imported_candidates@[q]).0;
                &&& db_writer.candidates().contains_key(key)
                &&& imported@[k].imported_candidates@[q].1@
                    == db_writer.candidates()[key]
            } by {
            assert(imported@[k].imported_candidates@.len()
                == pbv[k].1.included_candidates.len());
        }
        let delivered = sink.batches().last();
        let target = pbv.map_values(|p: ((BlockHash, Header), ImportedBlockInfoModel)|
            meta_of(p));
        assert(delivered.len() == approval_meta@.len());
        assert forall|k: int| 0 <= k < pbv.len() implies delivered[k] == target[k] by {
            assert(delivered[k] == approval_meta@[k]@);
            assert(target[k] == meta_of(pbv[k]));
        }
        assert(delivered =~= target);
    }
    Ok(imported)
}

} // verus!
