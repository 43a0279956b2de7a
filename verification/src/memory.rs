//! In-memory implementations of the consumed capabilities.
//!
//! They serve as verified reference collaborators: every answer is a
//! pure function of the stored data, so callers get exactly what the
//! capability contracts promise.

use vstd::prelude::*;

use crate::api::{anc_chain, ApprovalDb, ChainApi, ChainApiError, ChainModel, info_for,
    merge_candidates, RuntimeApi, RuntimeModel, with_child};
use crate::assoc::{assoc_map, distinct_keys, lemma_assoc_contains, lemma_assoc_index,
    lemma_assoc_update};
use crate::entries::{BlockEntry, CandidateEntry, NewCandidateInfo};
use crate::primitives::{BabeEpoch, BlockHash, CandidateEvent, CandidateHash, Header,
    SessionIndex, SessionInfo};

verus! {

/// A chain-lookup collaborator answering from a stored set of headers.
pub struct MemoryChain {
    headers: Vec<(BlockHash, Header)>,
}

impl MemoryChain {
    /// An empty chain store.
    pub fn new() -> (r: MemoryChain)
        ensures
            r.inv(),
            r.model().headers == Map::<BlockHash, Header>::empty(),
    {
        MemoryChain { headers: Vec::new() }
    }

    /// Records (or replaces) the header stored under `hash`.
    pub fn insert_header(&mut self, hash: BlockHash, header: Header)
        requires
            old(self).inv(),
        ensures
            final(self).inv(),
            final(self).model().headers == old(self).model().headers.insert(hash, header),
    {
        match self.position_of(hash) {
            Some(i) => {
                proof {
                    lemma_assoc_update(self.headers@, i as int, (hash, header));
                }
                let slot = &mut self.headers[i];
                *slot = (hash, header);
            }
            None => {
                self.headers.push((hash, header));
                proof {
                    assert(self.headers@.drop_last() =~= old(self).headers@);
                }
            }
        }
    }

    fn position_of(&self, hash: BlockHash) -> (r: Option<usize>)
        ensures
            match r {
                Some(i) => i < self.headers@.len() && self.headers@[i as int].0 == hash,
                None => forall|j: int| 0 <= j < self.headers@.len()
                    ==> self.headers@[j].0 != hash,
            },
    {
        let mut i: usize = 0;
        while i < self.headers.len()
            invariant
                i <= self.headers@.len(),
                forall|j: int| 0 <= j < i ==> self.headers@[j].0 != hash,
            decreases self.headers@.len() - i,
        {
            if self.headers[i].0 == hash {
                return Some(i);
            }
            i = i + 1;
        }
        None
    }
}

impl ChainApi for MemoryChain {
    closed spec fn model(&self) -> ChainModel {
        ChainModel {
            headers: assoc_map(self.headers@),
            header_failures: Set::empty(),
            ancestry_failures: Set::empty(),
        }
    }

    closed spec fn inv(&self) -> bool {
        distinct_keys(self.headers@)
    }

    fn ancestors(&self, hash: BlockHash, k: usize) -> (r: Option<Vec<BlockHash>>) {
        let ghost m = self.model().headers;
        let mut out: Vec<BlockHash> = Vec::new();
        let mut cur = hash;
        let mut stop = false;
        while !stop && out.len() < k
            invariant
                distinct_keys(self.headers@),
                m == assoc_map(self.headers@),
                out@.len() <= k,
                anc_chain(m, hash, k as nat) == out@ + (if stop {
                    Seq::<BlockHash>::empty()
                } else {
                    anc_chain(m, cur, (k - out@.len()) as nat)
                }),
            decreases k - out@.len() + (if stop { 0int } else { 1int }),
        {
            let ghost rem = (k - out@.len()) as nat;
            match self.position_of(cur) {
                None => {
                    proof {
                        lemma_assoc_contains(self.headers@, cur);
                    }
                    stop = true;
                }
                Some(i) => {
                    let hd = self.headers[i].1;
                    proof {
                        lemma_assoc_index(self.headers@, i as int);
                    }
                    if hd.number == 0 {
                        stop = true;
                    } else {
                        let p = hd.parent_hash;
                        match self.position_of(p) {
                            None => {
                                proof {
                                    lemma_assoc_contains(self.headers@, p);
                                }
                                stop = true;
                            }
                            Some(_) => {
                                proof {
                                    lemma_assoc_contains(self.headers@, p);
                                    assert(anc_chain(m, cur, rem) == seq![p] + anc_chain(
                                        m, p, (rem - 1) as nat));
                                    assert((out@ + seq![p]) + anc_chain(m, p, (rem - 1) as nat)
                                        =~= out@ + (seq![p] + anc_chain(m, p, (rem - 1) as nat)));
                                }
                                out.push(p);
                                cur = p;
                            }
                        }
                    }
                }
            }
        }
        proof {
            if !stop {
                assert(anc_chain(m, cur, 0) == Seq::<BlockHash>::empty());
            }
            assert(out@ + Seq::<BlockHash>::empty() =~= out@);
        }
        Some(out)
    }

    fn block_header(&self, hash: BlockHash) -> (r: Result<Option<Header>, ChainApiError>) {
        match self.position_of(hash) {
            Some(i) => {
                proof {
                    lemma_assoc_index(self.headers@, i as int);
                }
                Ok(Some(self.headers[i].1))
            }
            None => {
                proof {
                    lemma_assoc_contains(self.headers@, hash);
                }
                Ok(None)
            }
        }
    }
}

/// A runtime-query collaborator answering from stored per-block data.
pub struct MemoryRuntime {
    session_index: Vec<(BlockHash, SessionIndex)>,
    sessions: Vec<((BlockHash, SessionIndex), SessionInfo)>,
    events: Vec<(BlockHash, Vec<CandidateEvent>)>,
    epochs: Vec<(BlockHash, BabeEpoch)>,
}

impl MemoryRuntime {
    /// A runtime store that answers no query.
    pub fn new() -> (r: MemoryRuntime)
        ensures
            r.inv(),
            r.model().session_index == Map::<BlockHash, SessionIndex>::empty(),
            r.model().sessions == Map::<(BlockHash, SessionIndex), SessionInfo>::empty(),
            r.model().events == Map::<BlockHash, Seq<CandidateEvent>>::empty(),
            r.model().epochs == Map::<BlockHash, BabeEpoch>::empty(),
    {
        MemoryRuntime {
            session_index: Vec::new(),
            sessions: Vec::new(),
            events: Vec::new(),
            epochs: Vec::new(),
        }
    }

    /// Records the session index governing children of `block`.
    pub fn insert_session_index(&mut self, block: BlockHash, index: SessionIndex)
        requires
            old(self).inv(),
        ensures
            final(self).inv(),
            final(self).model() == (RuntimeModel {
                session_index: old(self).model().session_index.insert(block, index),
                ..old(self).model()
            }),
    {
        match self.position_of_session_index(block) {
            Some(i) => {
                proof {
                    lemma_assoc_update(self.session_index@, i as int, (block, index));
                }
                let slot = &mut self.session_index[i];
                *slot = (block, index);
            }
            None => {
                self.session_index.push((block, index));
                proof {
                    assert(self.session_index@.drop_last() =~= old(self).session_index@);
                }
            }
        }
    }

    /// Records the information of session `index` as served at `block`.
    pub fn insert_session_info(&mut self, block: BlockHash, index: SessionIndex,
        info: SessionInfo)
        requires
            old(self).inv(),
        ensures
            final(self).inv(),
            final(self).model() == (RuntimeModel {
                sessions: old(self).model().sessions.insert((block, index), info),
                ..old(self).model()
            }),
    {
        match self.position_of_session(block, index) {
            Some(i) => {
                proof {
                    lemma_assoc_update(self.sessions@, i as int, ((block, index), info));
                }
                let slot = &mut self.sessions[i];
                *slot = ((block, index), info);
            }
            None => {
                self.sessions.push(((block, index), info));
                proof {
                    assert(self.sessions@.drop_last() =~= old(self).sessions@);
                }
            }
        }
    }

    /// Records the candidate events of `block`.
    pub fn insert_candidate_events(&mut self, block: BlockHash, events: Vec<CandidateEvent>)
        requires
            old(self).inv(),
        ensures
            final(self).inv(),
            final(self).model() == (RuntimeModel {
                events: old(self).model().events.insert(block, events@),
                ..old(self).model()
            }),
    {
        match self.position_of_events(block) {
            Some(i) => {
                proof {
                    lemma_assoc_update(self.events@, i as int, (block, events));
                }
                let slot = &mut self.events[i];
                *slot = (block, events);
            }
            None => {
                self.events.push((block, events));
                proof {
                    assert(self.events@.drop_last() =~= old(self).events@);
                }
            }
        }
    }

    /// Records the VRF epoch data at `block`'s post-state.
    pub fn insert_epoch(&mut self, block: BlockHash, epoch: BabeEpoch)
        requires
            old(self).inv(),
        ensures
            final(self).inv(),
            final(self).model() == (RuntimeModel {
                epochs: old(self).model().epochs.insert(block, epoch),
                ..old(self).model()
            }),
    {
        match self.position_of_epoch(block) {
            Some(i) => {
                proof {
                    lemma_assoc_update(self.epochs@, i as int, (block, epoch));
                }
                let slot = &mut self.epochs[i];
                *slot = (block, epoch);
            }
            None => {
                self.epochs.push((block, epoch));
                proof {
                    assert(self.epochs@.drop_last() =~= old(self).epochs@);
                }
            }
        }
    }

    fn position_of_session_index(&self, block: BlockHash) -> (r: Option<usize>)
        ensures
            match r {
                Some(i) => i < self.session_index@.len()
                    && self.session_index@[i as int].0 == block,
                None => forall|j: int| 0 <= j < self.session_index@.len()
                    ==> self.session_index@[j].0 != block,
            },
    {
        let mut i: usize = 0;
        while i < self.session_index.len()
            invariant
                i <= self.session_index@.len(),
                forall|j: int| 0 <= j < i ==> self.session_index@[j].0 != block,
            decreases self.session_index@.len() - i,
        {
            if self.session_index[i].0 == block {
                return Some(i);
            }
            i = i + 1;
        }
        None
    }

    fn position_of_session(&self, block: BlockHash, index: SessionIndex) -> (r: Option<usize>)
        ensures
            match r {
                Some(i) => i < self.sessions@.len()
                    && self.sessions@[i as int].0 == (block, index),
                None => forall|j: int| 0 <= j < self.sessions@.len()
                    ==> self.sessions@[j].0 != (block, index),
            },
    {
        let mut i: usize = 0;
        while i < self.sessions.len()
            invariant
                i <= self.sessions@.len(),
                forall|j: int| 0 <= j < i ==> self.sessions@[j].0 != (block, index),
            decreases self.sessions@.len() - i,
        {
            if self.sessions[i].0.0 == block && self.sessions[i].0.1 == index {
                proof {
                    assert(self.sessions@[i as int].0 == (block, index));
                }
                return Some(i);
            }
            i = i + 1;
        }
        None
    }

    fn position_of_events(&self, block: BlockHash) -> (r: Option<usize>)
        ensures
            match r {
                Some(i) => i < self.events@.len() && self.events@[i as int].0 == block,
                None => forall|j: int| 0 <= j < self.events@.len()
                    ==> self.events@[j].0 != block,
            },
    {
        let mut i: usize = 0;
        while i < self.events.len()
            invariant
                i <= self.events@.len(),
                forall|j: int| 0 <= j < i ==> self.events@[j].0 != block,
            decreases self.events@.len() - i,
        {
            if self.events[i].0 == block {
                return Some(i);
            }
            i = i + 1;
        }
        None
    }

    fn position_of_epoch(&self, block: BlockHash) -> (r: Option<usize>)
        ensures
            match r {
                Some(i) => i < self.epochs@.len() && self.epochs@[i as int].0 == block,
                None => forall|j: int| 0 <= j < self.epochs@.len()
                    ==> self.epochs@[j].0 != block,
            },
    {
        let mut i: usize = 0;
        while i < self.epochs.len()
            invariant
                i <= self.epochs@.len(),
                forall|j: int| 0 <= j < i ==> self.epochs@[j].0 != block,
            decreases self.epochs@.len() - i,
        {
            if self.epochs[i].0 == block {
                return Some(i);
            }
            i = i + 1;
        }
        None
    }
}

impl RuntimeApi for MemoryRuntime {
    closed spec fn model(&self) -> RuntimeModel {
        RuntimeModel {
            session_index: assoc_map(self.session_index@),
            sessions: assoc_map(self.sessions@),
            events: assoc_map(self.events@),
            epochs: assoc_map(self.epochs@),
        }
    }

    closed spec fn inv(&self) -> bool {
        &&& distinct_keys(self.session_index@)
        &&& distinct_keys(self.sessions@)
        &&& distinct_keys(self.events@)
        &&& distinct_keys(self.epochs@)
    }

    fn session_index_for_child(&self, block: BlockHash) -> (r: Option<SessionIndex>) {
        match self.position_of_session_index(block) {
            Some(i) => {
                proof {
                    lemma_assoc_index(self.session_index@, i as int);
                }
                Some(self.session_index[i].1)
            }
            None => {
                proof {
                    lemma_assoc_contains(self.session_index@, block);
                }
                None
            }
        }
    }

    fn session_info(&self, block: BlockHash, index: SessionIndex) -> (r: Option<SessionInfo>) {
        match self.position_of_session(block, index) {
            Some(i) => {
                proof {
                    lemma_assoc_index(self.sessions@, i as int);
                }
                Some(self.sessions[i].1)
            }
            None => {
                proof {
                    lemma_assoc_contains(self.sessions@, (block, index));
                }
                None
            }
        }
    }

    fn candidate_events(&self, block: BlockHash) -> (r: Option<Vec<CandidateEvent>>) {
        match self.position_of_events(block) {
            Some(i) => {
                proof {
                    lemma_assoc_index(self.events@, i as int);
                }
                let stored = &self.events[i].1;
                let mut out: Vec<CandidateEvent> = Vec::new();
                let mut j: usize = 0;
                while j < stored.len()
                    invariant
                        j <= stored@.len(),
                        out@ =~= stored@.take(j as int),
                    decreases stored@.len() - j,
                {
                    out.push(stored[j]);
                    proof {
                        assert(out@ =~= stored@.take(j as int + 1));
                    }
                    j = j + 1;
                }
                proof {
                    assert(stored@.take(stored@.len() as int) =~= stored@);
                }
                Some(out)
            }
            None => {
                proof {
                    lemma_assoc_contains(self.events@, block);
                }
                None
            }
        }
    }

    fn current_epoch(&self, block: BlockHash) -> (r: Option<BabeEpoch>) {
        match self.position_of_epoch(block) {
            Some(i) => {
                proof {
                    lemma_assoc_index(self.epochs@, i as int);
                }
                Some(self.epochs[i].1)
            }
            None => {
                proof {
                    lemma_assoc_contains(self.epochs@, block);
                }
                None
            }
        }
    }
}

/// An in-memory approval database.
pub struct MemoryDb {
    blocks: Vec<(BlockHash, BlockEntry)>,
    cands: Vec<(CandidateHash, CandidateEntry)>,
}

impl MemoryDb {
    /// An empty store.
    pub fn new() -> (r: MemoryDb)
        ensures
            r.inv(),
            r.blocks() == Map::<BlockHash, crate::entries::BlockEntryModel>::empty(),
            r.candidates() == Map::<CandidateHash, crate::entries::CandidateEntryModel>::empty(),
    {
        MemoryDb { blocks: Vec::new(), cands: Vec::new() }
    }

    /// Stores `entry` under its block hash, replacing any entry already
    /// stored there.
    pub fn insert_block_entry(&mut self, entry: BlockEntry)
        requires
            old(self).inv(),
        ensures
            final(self).inv(),
            final(self).blocks() == old(self).blocks().insert(entry.block_hash, entry@),
            final(self).candidates() == old(self).candidates(),
    {
        let hash = entry.block_hash;
        match self.position_of_block(hash) {
            Some(i) => {
                proof {
                    lemma_assoc_update(self.blocks@, i as int, (hash, entry));
                }
                let slot = &mut self.blocks[i];
                *slot = (hash, entry);
            }
            None => {
                self.blocks.push((hash, entry));
                proof {
                    assert(self.blocks@.drop_last() =~= old(self).blocks@);
                }
            }
        }
    }

    fn position_of_block(&self, hash: BlockHash) -> (r: Option<usize>)
        ensures
            match r {
                Some(i) => i < self.blocks@.len() && self.blocks@[i as int].0 == hash,
                None => forall|j: int| 0 <= j < self.blocks@.len()
                    ==> self.blocks@[j].0 != hash,
            },
    {
        let mut i: usize = 0;
        while i < self.blocks.len()
            invariant
                i <= self.blocks@.len(),
                forall|j: int| 0 <= j < i ==> self.blocks@[j].0 != hash,
            decreases self.blocks@.len() - i,
        {
            if self.blocks[i].0 == hash {
                return Some(i);
            }
            i = i + 1;
        }
        None
    }

    fn position_of_cand(&self, hash: CandidateHash) -> (r: Option<usize>)
        ensures
            match r {
                Some(i) => i < self.cands@.len() && self.cands@[i as int].0 == hash,
                None => forall|j: int| 0 <= j < self.cands@.len()
                    ==> self.cands@[j].0 != hash,
            },
    {
        let mut i: usize = 0;
        while i < self.cands.len()
            invariant
                i <= self.cands@.len(),
                forall|j: int| 0 <= j < i ==> self.cands@[j].0 != hash,
            decreases self.cands@.len() - i,
        {
            if self.cands[i].0 == hash {
                return Some(i);
            }
            i = i + 1;
        }
        None
    }

    fn find_info(infos: &Vec<(CandidateHash, NewCandidateInfo)>, hash: CandidateHash)
        -> (r: NewCandidateInfo)
        requires
            info_for(infos@, hash) is Some,
        ensures
            info_for(infos@, hash) == Some(r),
    {
        proof {
            assert(infos@.skip(0) =~= infos@);
        }
        let mut j: usize = 0;
        while j < infos.len()
            invariant
                j <= infos@.len(),
                info_for(infos@, hash) == info_for(infos@.skip(j as int), hash),
                info_for(infos@, hash) is Some,
            decreases infos@.len() - j,
        {
            if infos[j].0 == hash {
                proof {
                    assert(infos@.skip(j as int)[0] == infos@[j as int]);
                }
                return infos[j].1;
            }
            proof {
                assert(infos@.skip(j as int).drop_first() =~= infos@.skip(j as int + 1));
            }
            j = j + 1;
        }
        proof {
            assert(infos@.skip(infos@.len() as int) =~= Seq::<(CandidateHash,
                NewCandidateInfo)>::empty());
        }
        vstd::pervasive::unreached()
    }
}

impl ApprovalDb for MemoryDb {
    closed spec fn blocks(&self) -> Map<BlockHash, crate::entries::BlockEntryModel> {
        assoc_map(self.blocks@)
    }

    closed spec fn candidates(&self) -> Map<CandidateHash, crate::entries::CandidateEntryModel> {
        assoc_map(self.cands@)
    }

    closed spec fn inv(&self) -> bool {
        distinct_keys(self.blocks@) && distinct_keys(self.cands@)
    }

    fn load_block_entry(&self, hash: BlockHash) -> (r: Option<&BlockEntry>) {
        match self.position_of_block(hash) {
            Some(i) => {
                proof {
                    lemma_assoc_index(self.blocks@, i as int);
                }
                Some(&self.blocks[i].1)
            }
            None => {
                proof {
                    lemma_assoc_contains(self.blocks@, hash);
                }
                None
            }
        }
    }

    fn load_candidate_entry(&self, hash: CandidateHash) -> (r: Option<&CandidateEntry>) {
        match self.position_of_cand(hash) {
            Some(i) => {
                proof {
                    lemma_assoc_index(self.cands@, i as int);
                }
                Some(&self.cands[i].1)
            }
            None => {
                proof {
                    lemma_assoc_contains(self.cands@, hash);
                }
                None
            }
        }
    }

    fn add_block_entry(
        &mut self,
        entry: BlockEntry,
        n_validators: usize,
        infos: &Vec<(CandidateHash, NewCandidateInfo)>,
    ) -> (r: Vec<(CandidateHash, CandidateEntry)>) {
        let block_hash = entry.block_hash;
        let parent_hash = entry.parent_hash;
        let session = entry.session;

        if let Some(i) = self.position_of_block(block_hash) {
            proof {
                lemma_assoc_index(self.blocks@, i as int);
            }
            return Vec::new();
        }
        proof {
            lemma_assoc_contains(self.blocks@, block_hash);
        }

        // Register the new block as a child of its parent, if the parent
        // is stored.
        match self.position_of_block(parent_hash) {
            Some(pi) => {
                proof {
                    lemma_assoc_index(self.blocks@, pi as int);
                }
                let ghost before = self.blocks@;
                let slot = &mut self.blocks[pi];
                slot.1.children.push(block_hash);
                proof {
                    assert(self.blocks@ == before.update(pi as int, self.blocks@[pi as int]));
                    assert(self.blocks@[pi as int].0 == parent_hash);
                    lemma_assoc_update(before, pi as int, self.blocks@[pi as int]);
                    assert(self.blocks@[pi as int].1@ == crate::entries::BlockEntryModel {
                        children: before[pi as int].1@.children.push(block_hash),
                        ..before[pi as int].1@
                    });
                    assert(assoc_map(self.blocks@) =~= with_child(assoc_map(before),
                        parent_hash, block_hash));
                    assert(forall|j: int| 0 <= j < self.blocks@.len()
                        ==> self.blocks@[j].0 == before[j].0);
                }
            }
            None => {
                proof {
                    lemma_assoc_contains(self.blocks@, parent_hash);
                    assert(assoc_map(self.blocks@) =~= with_child(assoc_map(self.blocks@),
                        parent_hash, block_hash));
                }
            }
        }
        let ghost blocks_mid = self.blocks@;

        // The candidate table update and the returned entries.
        let ghost cands0 = assoc_map(self.cands@);
        let ghost cand_list = entry.candidates@;
        proof {
            assert(cand_list.take(0) =~= Seq::<(crate::primitives::CoreIndex,
                CandidateHash)>::empty());
        }
        let mut result: Vec<(CandidateHash, CandidateEntry)> = Vec::new();
        let mut i: usize = 0;
        while i < entry.candidates.len()
            invariant
                self.blocks@ == blocks_mid,
                distinct_keys(self.cands@),
                i <= cand_list.len(),
                entry.candidates@ == cand_list,
                session == entry.session,
                forall|j: int| 0 <= j < cand_list.len()
                    ==> info_for(infos@, cand_list[j].1) is Some,
                assoc_map(self.cands@) == merge_candidates(cands0, cand_list.take(i as int),
                    infos@, session, n_validators as nat),
                result@.len() == i,
                forall|j: int| 0 <= j < i ==> {
                    &&& (#[trigger] result@[j]).0 == cand_list[j].1
                    &&& assoc_map(self.cands@).contains_key(result@[j].0)
                    &&& result@[j].1@ == assoc_map(self.cands@)[result@[j].0]
                },
            decreases cand_list.len() - i,
        {
            let cand_hash = entry.candidates[i].1;
            proof {
                assert(cand_list.take(i as int + 1).drop_last() =~= cand_list.take(i as int));
                assert(cand_list.take(i as int + 1).last() == cand_list[i as int]);
            }
            match self.position_of_cand(cand_hash) {
                Some(ci) => {
                    proof {
                        lemma_assoc_index(self.cands@, ci as int);
                        lemma_assoc_contains(self.cands@, cand_hash);
                    }
                    let dup = self.cands[ci].1.duplicate();
                    result.push((cand_hash, dup));
                }
                None => {
                    proof {
                        lemma_assoc_contains(self.cands@, cand_hash);
                    }
                    let info = Self::find_info(infos, cand_hash);
                    let fresh = info.into_entry(session, n_validators);
                    let dup = fresh.duplicate();
                    let ghost pre = self.cands@;
                    self.cands.push((cand_hash, fresh));
                    result.push((cand_hash, dup));
                    proof {
                        assert(self.cands@.drop_last() =~= pre);
                        assert(assoc_map(self.cands@) == assoc_map(pre).insert(cand_hash,
                            fresh@));
                    }
                }
            }
            i = i + 1;
        }
        proof {
            assert(cand_list.take(cand_list.len() as int) =~= cand_list);
        }

        // Finally the block entry itself.
        let ghost pre_blocks = self.blocks@;
        self.blocks.push((block_hash, entry));
        proof {
            assert(self.blocks@.drop_last() =~= pre_blocks);
        }
        result
    }
}

} // verus!
