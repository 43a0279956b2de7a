use approval_import::block_info::{imported_block_info, BlendedVrf, ImportedBlockInfoEnv,
    NullCriteria};
use approval_import::memory::MemoryRuntime;
use approval_import::primitives::{BabeEpoch, BlockHash, CandidateEvent, CandidateReceipt,
    CoreIndex, Digest, GroupIndex, Header, Keystore, SessionInfo, VrfPreDigest};
use approval_import::window::RollingSessionWindow;

fn dummy_session_info(index: u32) -> SessionInfo {
    SessionInfo {
        n_validators: 0,
        n_discovery_keys: 0,
        n_assignment_keys: 0,
        n_validator_groups: 0,
        n_cores: index,
        zeroth_delay_tranche_width: index,
        relay_vrf_modulo_samples: index,
        n_delay_tranches: index,
        no_show_slots: index,
        needed_approvals: index,
    }
}

fn make_candidate(para_id: u32, relay_parent: BlockHash) -> CandidateReceipt {
    CandidateReceipt { para_id, relay_parent }
}

fn test_epoch(session: u32) -> BabeEpoch {
    BabeEpoch {
        epoch_index: session as u64,
        start_slot: 0,
        duration: 200,
        n_authorities: 1,
        randomness: 0,
    }
}

#[test]
fn imported_block_info_is_good() {
    let session = 5;
    let session_info = dummy_session_info(session);

    let slot = 10;

    let hash = BlockHash(42);
    let header = Header {
        parent_hash: BlockHash(0),
        number: 5,
        digest: Digest {
            vrf: Some(VrfPreDigest {
                authority_index: 0,
                slot,
                vrf_output: 7,
                vrf_proof: 8,
            }),
        },
    };

    let candidates = vec![
        (make_candidate(1, hash), CoreIndex(0), GroupIndex(2)),
        (make_candidate(2, hash), CoreIndex(1), GroupIndex(3)),
    ];
    let inclusion_events: Vec<CandidateEvent> = candidates
        .iter()
        .cloned()
        .map(|(r, c, g)| CandidateEvent::CandidateIncluded(r, c, g))
        .collect();
    let included_candidates: Vec<_> = candidates
        .iter()
        .map(|(r, c, g)| (r.hash(), *r, *c, *g))
        .collect();

    let mut runtime = MemoryRuntime::new();
    runtime.insert_candidate_events(hash, inclusion_events);
    runtime.insert_session_index(header.parent_hash, session);
    runtime.insert_epoch(hash, test_epoch(session));

    let window = RollingSessionWindow {
        earliest_session: Some(session),
        session_info: vec![session_info],
    };

    let keystore = Keystore::in_memory();
    let env = ImportedBlockInfoEnv {
        session_window: &window,
        assignment_criteria: &NullCriteria,
        vrf_story_source: &BlendedVrf,
        keystore: &keystore,
    };

    let info = imported_block_info(&runtime, env, hash, &header).unwrap();

    assert_eq!(info.included_candidates, included_candidates);
    assert_eq!(info.session_index, session);
    assert!(info.assignments.is_empty());
    assert_eq!(info.n_validators, 0);
    assert_eq!(info.slot, slot);
}

#[test]
fn imported_block_info_fails_if_no_babe_vrf() {
    let session = 5;
    let session_info = dummy_session_info(session);

    let hash = BlockHash(42);
    let header = Header {
        parent_hash: BlockHash(0),
        number: 5,
        digest: Digest::empty(),
    };

    let candidates = vec![
        (make_candidate(1, hash), CoreIndex(0), GroupIndex(2)),
        (make_candidate(2, hash), CoreIndex(1), GroupIndex(3)),
    ];
    let inclusion_events: Vec<CandidateEvent> = candidates
        .iter()
        .cloned()
        .map(|(r, c, g)| CandidateEvent::CandidateIncluded(r, c, g))
        .collect();

    let mut runtime = MemoryRuntime::new();
    runtime.insert_candidate_events(hash, inclusion_events);
    runtime.insert_session_index(header.parent_hash, session);
    runtime.insert_epoch(hash, test_epoch(session));

    let window = RollingSessionWindow {
        earliest_session: Some(session),
        session_info: vec![session_info],
    };

    let keystore = Keystore::in_memory();
    let env = ImportedBlockInfoEnv {
        session_window: &window,
        assignment_criteria: &NullCriteria,
        vrf_story_source: &BlendedVrf,
        keystore: &keystore,
    };

    let info = imported_block_info(&runtime, env, hash, &header);
    assert!(info.is_none());
}

#[test]
fn imported_block_info_fails_if_unknown_session() {
    let session = 5;

    let hash = BlockHash(42);
    let header = Header {
        parent_hash: BlockHash(0),
        number: 5,
        digest: Digest::empty(),
    };

    let candidates = vec![
        (make_candidate(1, hash), CoreIndex(0), GroupIndex(2)),
        (make_candidate(2, hash), CoreIndex(1), GroupIndex(3)),
    ];
    let inclusion_events: Vec<CandidateEvent> = candidates
        .iter()
        .cloned()
        .map(|(r, c, g)| CandidateEvent::CandidateIncluded(r, c, g))
        .collect();

    let mut runtime = MemoryRuntime::new();
    runtime.insert_candidate_events(hash, inclusion_events);
    runtime.insert_session_index(header.parent_hash, session);

    // An empty window: every session is unknown to it.
    let window = RollingSessionWindow::new();

    let keystore = Keystore::in_memory();
    let env = ImportedBlockInfoEnv {
        session_window: &window,
        assignment_criteria: &NullCriteria,
        vrf_story_source: &BlendedVrf,
        keystore: &keystore,
    };

    let info = imported_block_info(&runtime, env, hash, &header);
    assert!(info.is_none());
}
