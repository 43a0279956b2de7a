//! The capabilities the import logic consumes.
//!
//! Every collaborator — chain lookups, runtime queries, the approval
//! database — is reached through a trait whose methods answer as a
//! function of the implementation's abstract state. A request that the
//! collaborator cannot answer comes back as `None`; the logic is verified
//! for every abstract state, so for every pattern of such failures.

use vstd::prelude::*;

use crate::entries::{BlockEntry, BlockEntryModel, CandidateEntry, CandidateEntryModel,
    NewCandidateInfo};
use crate::primitives::{BabeEpoch, BlockHash, CandidateEvent, CandidateHash, Header,
    SessionIndex, SessionInfo};

verus! {

/// The value a map holds at a key, if any.
pub open spec fn map_found<K, V>(m: Map<K, V>, k: K) -> Option<V> {
    if m.contains_key(k) {
        Some(m[k])
    } else {
        None
    }
}

/// The abstract state of a chain-lookup collaborator: the headers it
/// knows, and the requests it fails to answer.
pub ghost struct ChainModel {
    /// The known headers, by block hash.
    pub headers: Map<BlockHash, Header>,
    /// Blocks whose header lookup fails outright.
    pub header_failures: Set<BlockHash>,
    /// Blocks whose ancestry lookup fails outright.
    pub ancestry_failures: Set<BlockHash>,
}

/// Coherence of a chain model: every known block at a positive height
/// whose parent is also known sits one above that parent.
pub open spec fn chain_wf(m: ChainModel) -> bool {
    forall|h: BlockHash| #[trigger] m.headers.contains_key(h) ==> {
        let hd = m.headers[h];
        hd.number > 0 && m.headers.contains_key(hd.parent_hash)
            ==> m.headers[hd.parent_hash].number + 1 == hd.number
    }
}

/// The ancestor hashes a chain lookup reports for `h`: the chain of
/// parent hashes, up to `k` entries, ending before the first unknown
/// parent and not reaching past genesis.
pub open spec fn anc_chain(headers: Map<BlockHash, Header>, h: BlockHash, k: nat)
    -> Seq<BlockHash>
    decreases k,
{
    if k == 0 || !headers.contains_key(h) || headers[h].number == 0 {
        Seq::empty()
    } else {
        let p = headers[h].parent_hash;
        if headers.contains_key(p) {
            seq![p] + anc_chain(headers, p, (k - 1) as nat)
        } else {
            Seq::empty()
        }
    }
}

/// Chain lookups: ancestry and header queries, both of which may fail.
pub trait ChainApi {
    /// The abstract state the answers are drawn from.
    spec fn model(&self) -> ChainModel;

    /// Internal invariant of the implementation.
    spec fn inv(&self) -> bool;

    /// Asks for up to `k` ancestor hashes of `hash`, nearest first.
    fn ancestors(&self, hash: BlockHash, k: usize) -> (r: Option<Vec<BlockHash>>)
        requires
            self.inv(),
        ensures
            match r {
                Some(v) => !self.model().ancestry_failures.contains(hash)
                    && v@ == anc_chain(self.model().headers, hash, k as nat),
                None => self.model().ancestry_failures.contains(hash),
            },
    ;

    /// Asks for the header of `hash`; `Ok(None)` means the block is
    /// unknown, `Err` that the lookup itself failed.
    fn block_header(&self, hash: BlockHash) -> (r: Result<Option<Header>, ChainApiError>)
        requires
            self.inv(),
        ensures
            match r {
                Ok(found) => !self.model().header_failures.contains(hash)
                    && found == map_found(self.model().headers, hash),
                Err(_) => self.model().header_failures.contains(hash),
            },
    ;
}

/// A chain lookup failed at the transport level.
#[derive(Clone, Copy, Debug, PartialEq, Eq, Structural)]
pub struct ChainApiError;

/// The abstract state of the runtime-query collaborator. A key that is
/// absent stands for a query that fails or comes back empty.
pub ghost struct RuntimeModel {
    /// The session index governing the children of each block.
    pub session_index: Map<BlockHash, SessionIndex>,
    /// The session information served at a block's state, per session.
    pub sessions: Map<(BlockHash, SessionIndex), SessionInfo>,
    /// The candidate events of each block.
    pub events: Map<BlockHash, Seq<CandidateEvent>>,
    /// The VRF epoch data at each block's post-state.
    pub epochs: Map<BlockHash, BabeEpoch>,
}

/// Runtime queries against a block's state; each may fail.
pub trait RuntimeApi {
    /// The abstract state the answers are drawn from.
    spec fn model(&self) -> RuntimeModel;

    /// Internal invariant of the implementation.
    spec fn inv(&self) -> bool;

    /// The session index governing children of `block`.
    fn session_index_for_child(&self, block: BlockHash) -> (r: Option<SessionIndex>)
        requires
            self.inv(),
        ensures
            r == map_found(self.model().session_index, block),
    ;

    /// The information of session `index`, as served at `block`.
    fn session_info(&self, block: BlockHash, index: SessionIndex) -> (r: Option<SessionInfo>)
        requires
            self.inv(),
        ensures
            r == map_found(self.model().sessions, (block, index)),
    ;

    /// The candidate events of `block`.
    fn candidate_events(&self, block: BlockHash) -> (r: Option<Vec<CandidateEvent>>)
        requires
            self.inv(),
        ensures
            match r {
                Some(v) => self.model().events.contains_key(block)
                    && v@ == self.model().events[block],
                None => !self.model().events.contains_key(block),
            },
    ;

    /// The VRF epoch data at `block`'s own post-state.
    fn current_epoch(&self, block: BlockHash) -> (r: Option<BabeEpoch>)
        requires
            self.inv(),
        ensures
            r == map_found(self.model().epochs, block),
    ;
}

/// The first candidate info recorded under `h`, if any.
pub open spec fn info_for(infos: Seq<(CandidateHash, NewCandidateInfo)>, h: CandidateHash)
    -> Option<NewCandidateInfo>
    decreases infos.len(),
{
    if infos.len() == 0 {
        None
    } else if infos[0].0 == h {
        Some(infos[0].1)
    } else {
        info_for(infos.drop_first(), h)
    }
}

/// A hash that some entry of the list carries is found.
pub proof fn lemma_info_for_present(infos: Seq<(CandidateHash, NewCandidateInfo)>, j: int)
    requires
        0 <= j < infos.len(),
    ensures
        info_for(infos, infos[j].0) is Some,
    decreases infos.len(),
{
    if infos[0].0 != infos[j].0 {
        lemma_info_for_present(infos.drop_first(), j - 1);
        assert(infos.drop_first()[j - 1] == infos[j]);
    }
}

/// How adding one block's candidates changes the candidate table: a
/// candidate seen for the first time gets a fresh entry; an existing
/// entry is left untouched.
pub open spec fn merge_candidates(
    m: Map<CandidateHash, CandidateEntryModel>,
    cands: Seq<(crate::primitives::CoreIndex, CandidateHash)>,
    infos: Seq<(CandidateHash, NewCandidateInfo)>,
    session: SessionIndex,
    n_validators: nat,
) -> Map<CandidateHash, CandidateEntryModel>
    decreases cands.len(),
{
    if cands.len() == 0 {
        m
    } else {
        let prev = merge_candidates(m, cands.drop_last(), infos, session, n_validators);
        let h = cands.last().1;
        if prev.contains_key(h) {
            prev
        } else {
            match info_for(infos, h) {
                Some(info) => prev.insert(h, info.entry_model(session, n_validators)),
                None => prev,
            }
        }
    }
}

/// Merging leaves every candidate entry that already exists untouched.
pub proof fn lemma_merge_preserves(
    m: Map<CandidateHash, CandidateEntryModel>,
    cands: Seq<(crate::primitives::CoreIndex, CandidateHash)>,
    infos: Seq<(CandidateHash, NewCandidateInfo)>,
    session: SessionIndex,
    n_validators: nat,
    key: CandidateHash,
)
    requires
        m.contains_key(key),
    ensures
        merge_candidates(m, cands, infos, session, n_validators).contains_key(key),
        merge_candidates(m, cands, infos, session, n_validators)[key] == m[key],
    decreases cands.len(),
{
    if cands.len() > 0 {
        lemma_merge_preserves(m, cands.drop_last(), infos, session, n_validators, key);
    }
}

/// How registering `child` under `parent` changes the block table: if
/// the parent has an entry, the child is appended to its children list.
pub open spec fn with_child(m: Map<BlockHash, BlockEntryModel>, parent: BlockHash,
    child: BlockHash) -> Map<BlockHash, BlockEntryModel> {
    if m.contains_key(parent) {
        m.insert(parent, BlockEntryModel { children: m[parent].children.push(child), ..m[parent] })
    } else {
        m
    }
}

/// The approval database: block and candidate entries with atomic
/// single-key reads and writes.
pub trait ApprovalDb {
    /// The block entries, by block hash.
    spec fn blocks(&self) -> Map<BlockHash, BlockEntryModel>;

    /// The candidate entries, by candidate hash.
    spec fn candidates(&self) -> Map<CandidateHash, CandidateEntryModel>;

    /// Internal invariant of the store.
    spec fn inv(&self) -> bool;

    /// Loads the entry of block `hash`, if one is stored.
    fn load_block_entry(&self, hash: BlockHash) -> (r: Option<&BlockEntry>)
        requires
            self.inv(),
        ensures
            r is Some <==> self.blocks().contains_key(hash),
            r matches Some(e) ==> e@ == self.blocks()[hash],
    ;

    /// Loads the entry of candidate `hash`, if one is stored.
    fn load_candidate_entry(&self, hash: CandidateHash) -> (r: Option<&CandidateEntry>)
        requires
            self.inv(),
        ensures
            r is Some <==> self.candidates().contains_key(hash),
            r matches Some(e) ==> e@ == self.candidates()[hash],
    ;

    /// Stores a freshly imported block: registers it as a child of its
    /// parent, records its entry, and creates an entry for every included
    /// candidate that has none yet, sized to `n_validators` approval
    /// bits. Returns the stored entry of each included candidate, in the
    /// block's core order. A block that is already stored changes
    /// nothing.
    fn add_block_entry(
        &mut self,
        entry: BlockEntry,
        n_validators: usize,
        infos: &Vec<(CandidateHash, NewCandidateInfo)>,
    ) -> (r: Vec<(CandidateHash, CandidateEntry)>)
        requires
            old(self).inv(),
            forall|i: int| 0 <= i < entry.candidates@.len()
                ==> info_for(infos@, entry.candidates@[i].1) is Some,
        ensures
            final(self).inv(),
            old(self).blocks().contains_key(entry.block_hash) ==> {
                &&& final(self).blocks() == old(self).blocks()
                &&& final(self).candidates() == old(self).candidates()
                &&& r@.len() == 0
            },
            !old(self).blocks().contains_key(entry.block_hash) ==> {
                &&& final(self).blocks() == with_child(old(self).blocks(), entry.parent_hash,
                    entry.block_hash).insert(entry.block_hash, entry@)
                &&& final(self).candidates() == merge_candidates(old(self).candidates(),
                    entry.candidates@, infos@, entry.session, n_validators as nat)
                &&& r@.len() == entry.candidates@.len()
                &&& forall|i: int| 0 <= i < r@.len() ==> {
                    &&& (#[trigger] r@[i]).0 == entry.candidates@[i].1
                    &&& final(self).candidates().contains_key(r@[i].0)
                    &&& r@[i].1@ == final(self).candidates()[r@[i].0]
                }
            },
    ;
}

} // verus!
