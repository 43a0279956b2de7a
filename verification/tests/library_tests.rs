use approval_import::api::ApprovalDb;
use approval_import::bitfield::Bitfield;
use approval_import::block_info::{BlendedVrf, NullCriteria};
use approval_import::cli::{ExportGenesisStateCommand, ExportGenesisWasmCommand, Subcommand};
use approval_import::coordinator::{handle_new_head, slot_number_to_tick, MemorySink, State};
use approval_import::entries::{BlockEntry, NewCandidateInfo};
use approval_import::memory::{MemoryChain, MemoryDb, MemoryRuntime};
use approval_import::params::{MergeAccountEvm, WeightToFee};
use approval_import::primitives::{BabeEpoch, BlockHash, CandidateEvent, CandidateReceipt,
    CoreIndex, Digest, GroupIndex, Header, Keystore, SessionInfo, VrfPreDigest, VrfStory};
use approval_import::window::RollingSessionWindow;

fn plain_session_info(index: u32) -> SessionInfo {
    SessionInfo {
        n_validators: 0,
        n_discovery_keys: 0,
        n_assignment_keys: 0,
        n_validator_groups: 0,
        n_cores: index,
        zeroth_delay_tranche_width: index,
        relay_vrf_modulo_samples: index,
        n_delay_tranches: index,
        no_show_slots: index,
        needed_approvals: index,
    }
}

#[test]
fn window_lookup_and_latest() {
    let empty = RollingSessionWindow::new();
    assert_eq!(empty.latest_session(), None);
    assert!(empty.session_info(0).is_none());

    let window = RollingSessionWindow {
        earliest_session: Some(50),
        session_info: vec![plain_session_info(50), plain_session_info(51)],
    };
    assert_eq!(window.latest_session(), Some(51));
    assert!(window.session_info(49).is_none());
    assert_eq!(window.session_info(50), Some(plain_session_info(50)));
    assert_eq!(window.session_info(51), Some(plain_session_info(51)));
    assert!(window.session_info(52).is_none());
}

#[test]
fn bitfield_repeat_len_get() {
    let zeros = Bitfield::repeat(false, 5);
    assert_eq!(zeros.len(), 5);
    let mut i: usize = 0;
    while i < 5 {
        assert!(!zeros.get(i));
        i += 1;
    }
    let ones = Bitfield::repeat(true, 3);
    assert_eq!(ones.len(), 3);
    assert!(ones.get(2));
    let copy = ones.clone();
    assert_eq!(copy.len(), 3);
    assert!(copy.get(0));
}

#[test]
fn slot_to_tick_values() {
    // Six-second slots are twelve ticks each.
    assert_eq!(slot_number_to_tick(6000, 10), 120);
    assert_eq!(slot_number_to_tick(500, 7), 7);
    assert_eq!(slot_number_to_tick(0, 5), 0);
    assert_eq!(slot_number_to_tick(250, 9), 0);
    // The conversion saturates instead of wrapping.
    assert_eq!(slot_number_to_tick(1000, u64::MAX / 2 + 1), u64::MAX);
}

#[test]
fn candidate_entries_merge_across_forks() {
    let mut db = MemoryDb::new();

    let receipt = CandidateReceipt { para_id: 7, relay_parent: BlockHash(11) };
    let cand_hash = receipt.hash();
    let info = NewCandidateInfo { candidate: receipt, backing_group: GroupIndex(1),
        our_assignment: None };

    let entry_a = BlockEntry {
        block_hash: BlockHash(11),
        parent_hash: BlockHash(10),
        block_number: 4,
        session: 2,
        slot: 20,
        relay_vrf_story: VrfStory(1),
        candidates: vec![(CoreIndex(0), cand_hash)],
        approved_bitfield: Bitfield::repeat(false, 1),
        children: Vec::new(),
    };
    let from_a = db.add_block_entry(entry_a, 3, &vec![(cand_hash, info)]);
    assert_eq!(from_a.len(), 1);
    assert_eq!(from_a[0].0, cand_hash);
    assert_eq!(from_a[0].1.approvals.len(), 3);

    // The same candidate included on a fork: the entry is kept, not
    // rebuilt, even with a different validator count.
    let entry_b = BlockEntry {
        block_hash: BlockHash(12),
        parent_hash: BlockHash(10),
        block_number: 4,
        session: 2,
        slot: 21,
        relay_vrf_story: VrfStory(2),
        candidates: vec![(CoreIndex(0), cand_hash)],
        approved_bitfield: Bitfield::repeat(false, 1),
        children: Vec::new(),
    };
    let from_b = db.add_block_entry(entry_b, 9, &vec![(cand_hash, info)]);
    assert_eq!(from_b.len(), 1);
    assert_eq!(from_b[0].1.approvals.len(), 3);

    // Adding an already-stored block changes nothing and reports no
    // candidates.
    let entry_c = BlockEntry {
        block_hash: BlockHash(11),
        parent_hash: BlockHash(10),
        block_number: 4,
        session: 2,
        slot: 20,
        relay_vrf_story: VrfStory(1),
        candidates: vec![(CoreIndex(0), cand_hash)],
        approved_bitfield: Bitfield::repeat(false, 1),
        children: Vec::new(),
    };
    let from_c = db.add_block_entry(entry_c, 3, &vec![(cand_hash, info)]);
    assert!(from_c.is_empty());

    // The stored block entry starts with its one candidate unapproved.
    let stored = db.load_block_entry(BlockHash(11)).unwrap();
    assert_eq!(stored.is_approved(0), Some(false));
    assert_eq!(stored.is_approved(1), None);
}

fn short_hash(n: u32) -> BlockHash {
    BlockHash(500 + n as u64)
}

fn short_header(n: u32) -> Header {
    Header {
        parent_hash: short_hash(n - 1),
        number: n,
        digest: Digest {
            vrf: Some(VrfPreDigest {
                authority_index: 0,
                slot: 100 + n as u64,
                vrf_output: n as u64,
                vrf_proof: 0,
            }),
        },
    }
}

#[test]
fn handle_new_head_imports_chain() {
    // A three-block chain, nothing tracked yet; the head notification
    // imports all of it, oldest first.
    let mut chain = MemoryChain::new();
    let mut runtime = MemoryRuntime::new();
    for n in 1u32..=3 {
        chain.insert_header(short_hash(n), short_header(n));
        runtime.insert_session_index(short_hash(n - 1), 2);
        runtime.insert_epoch(short_hash(n), BabeEpoch {
            epoch_index: 2,
            start_slot: 0,
            duration: 200,
            n_authorities: 1,
            randomness: 9,
        });
    }
    let receipt = CandidateReceipt { para_id: 7, relay_parent: short_hash(2) };
    runtime.insert_candidate_events(short_hash(1), Vec::new());
    runtime.insert_candidate_events(short_hash(2), vec![CandidateEvent::CandidateIncluded(
        receipt, CoreIndex(0), GroupIndex(1))]);
    runtime.insert_candidate_events(short_hash(3), Vec::new());
    for s in 0u32..=2 {
        runtime.insert_session_info(short_hash(3), s, plain_session_info(s));
    }

    let mut state = State {
        session_window: RollingSessionWindow::new(),
        keystore: Keystore::in_memory(),
        slot_duration_millis: 6000,
        db: MemoryDb::new(),
        assignment_criteria: NullCriteria,
        vrf_story_source: BlendedVrf,
    };
    let mut db_writer = MemoryDb::new();
    let mut sink = MemorySink::new();

    let imported = handle_new_head(&chain, &runtime, &mut state, &mut db_writer, &mut sink,
        short_hash(3), &Some(0)).unwrap();

    assert_eq!(imported.len(), 3);
    assert_eq!(imported[0].block_hash, short_hash(1));
    assert_eq!(imported[1].block_hash, short_hash(2));
    assert_eq!(imported[2].block_hash, short_hash(3));
    assert_eq!(imported[0].block_number, 1);
    // Twelve ticks per six-second slot.
    assert_eq!(imported[0].block_tick, 101 * 12);
    // The governing session allows two no-show slots.
    assert_eq!(imported[0].no_show_duration, 2 * 12);
    assert!(imported[0].imported_candidates.is_empty());
    assert_eq!(imported[1].imported_candidates.len(), 1);
    assert_eq!(imported[1].imported_candidates[0].0, receipt.hash());

    // The window ends at the head's session.
    assert_eq!(state.session_window.latest_session(), Some(2));

    // Children were registered as later blocks arrived.
    let first = db_writer.load_block_entry(short_hash(1)).unwrap();
    assert_eq!(first.children, vec![short_hash(2)]);
    let second = db_writer.load_block_entry(short_hash(2)).unwrap();
    assert_eq!(second.children, vec![short_hash(3)]);
    assert!(db_writer.load_candidate_entry(receipt.hash()).is_some());

    // One metadata batch went downstream, covering all three blocks.
    assert_eq!(sink.batch_count(), 1);
    let batch = sink.batch(0);
    assert_eq!(batch.len(), 3);
    assert_eq!(batch[1].hash, short_hash(2));
    assert_eq!(batch[1].parent_hash, short_hash(1));
    assert_eq!(batch[1].candidates, vec![receipt.hash()]);
    assert_eq!(batch[1].slot, 102);
}

#[test]
fn handle_new_head_unknown_head_is_empty() {
    let chain = MemoryChain::new();
    let runtime = MemoryRuntime::new();
    let mut state = State {
        session_window: RollingSessionWindow::new(),
        keystore: Keystore::in_memory(),
        slot_duration_millis: 6000,
        db: MemoryDb::new(),
        assignment_criteria: NullCriteria,
        vrf_story_source: BlendedVrf,
    };
    let mut db_writer = MemoryDb::new();
    let mut sink = MemorySink::new();

    let imported = handle_new_head(&chain, &runtime, &mut state, &mut db_writer, &mut sink,
        BlockHash(9), &None).unwrap();
    assert!(imported.is_empty());
    assert_eq!(state.session_window.latest_session(), None);
}

#[test]
fn handle_new_head_sessions_unavailable_is_empty() {
    // The head is known but its session cannot be loaded: nothing is
    // imported and nothing is announced.
    let mut chain = MemoryChain::new();
    chain.insert_header(short_hash(1), short_header(1));
    let mut runtime = MemoryRuntime::new();
    runtime.insert_session_index(short_hash(0), 2);
    // No session info at all: the load must fail.

    let mut state = State {
        session_window: RollingSessionWindow::new(),
        keystore: Keystore::in_memory(),
        slot_duration_millis: 6000,
        db: MemoryDb::new(),
        assignment_criteria: NullCriteria,
        vrf_story_source: BlendedVrf,
    };
    let mut db_writer = MemoryDb::new();
    let mut sink = MemorySink::new();

    let imported = handle_new_head(&chain, &runtime, &mut state, &mut db_writer, &mut sink,
        short_hash(1), &Some(0)).unwrap();
    assert!(imported.is_empty());
    assert_eq!(state.session_window.latest_session(), None);
    assert_eq!(sink.batch_count(), 0);
}

#[test]
fn subcommand_names() {
    let state_cmd = Subcommand::ExportGenesisState(ExportGenesisStateCommand {});
    let wasm_cmd = Subcommand::ExportGenesisWasm(ExportGenesisWasmCommand {});
    assert_eq!(state_cmd.name(), "export-genesis-state");
    assert_eq!(wasm_cmd.name(), "export-genesis-wasm");
    let _ = WeightToFee;
    let _ = MergeAccountEvm;
}
