use approval_import::bitfield::Bitfield;
use approval_import::entries::BlockEntry;
use approval_import::memory::{MemoryChain, MemoryDb};
use approval_import::primitives::{BlockHash, BlockNumber, Digest, Header, VrfStory};
use approval_import::walker::determine_new_blocks;

fn chain_hash(number: BlockNumber) -> BlockHash {
    BlockHash(1000 + number as u64)
}

fn chain_header(start: BlockNumber, number: BlockNumber) -> Header {
    let parent_hash = if number == start {
        BlockHash(0)
    } else {
        chain_hash(number - 1)
    };
    Header { parent_hash, number, digest: Digest::empty() }
}

/// A chain of `len` blocks numbered upwards from `start`.
fn build_chain(start: BlockNumber, len: u32) -> MemoryChain {
    let mut chain = MemoryChain::new();
    let mut n = start;
    while n < start + len {
        chain.insert_header(chain_hash(n), chain_header(start, n));
        n += 1;
    }
    chain
}

fn tracked_entry(hash: BlockHash, number: BlockNumber) -> BlockEntry {
    BlockEntry {
        block_hash: hash,
        parent_hash: BlockHash(0),
        block_number: number,
        session: 1,
        slot: 100,
        relay_vrf_story: VrfStory(0),
        candidates: Vec::new(),
        approved_bitfield: Bitfield::repeat(false, 0),
        children: Vec::new(),
    }
}

fn expected_range(start: BlockNumber, from: BlockNumber, to: BlockNumber)
    -> Vec<(BlockHash, Header)> {
    let mut out = Vec::new();
    let mut n = from;
    while n <= to {
        out.push((chain_hash(n), chain_header(start, n)));
        n += 1;
    }
    out
}

#[test]
fn determine_new_blocks_back_to_finalized() {
    let chain = build_chain(10, 9);
    let db = MemoryDb::new();

    let head = chain_header(10, 18);
    let head_hash = chain_hash(18);
    let finalized_number = 12;

    // The finalized block is omitted; the head itself is included:
    // blocks 13 through 18, oldest first.
    let expected_ancestry = expected_range(10, 13, 18);

    let ancestry = determine_new_blocks(&chain, &db, head_hash, &head, finalized_number);
    assert_eq!(ancestry, expected_ancestry);
    assert_eq!(ancestry.len(), 6);
}

#[test]
fn determine_new_blocks_back_to_known() {
    let chain = build_chain(10, 9);
    let mut db = MemoryDb::new();

    let head = chain_header(10, 18);
    let head_hash = chain_hash(18);
    let finalized_number = 12;
    let known_number = 15;
    let known_hash = chain_hash(known_number);

    db.insert_block_entry(tracked_entry(known_hash, known_number));

    // The known block is omitted; the head itself is included: blocks
    // 16 through 18 only.
    let expected_ancestry = expected_range(10, 16, 18);

    let ancestry = determine_new_blocks(&chain, &db, head_hash, &head, finalized_number);
    assert_eq!(ancestry, expected_ancestry);
}

#[test]
fn determine_new_blocks_already_known_is_empty() {
    let chain = build_chain(10, 9);
    let mut db = MemoryDb::new();

    let head = chain_header(10, 18);
    let head_hash = chain_hash(18);
    let finalized_number = 0;

    db.insert_block_entry(tracked_entry(head_hash, 18));

    let expected_ancestry: Vec<(BlockHash, Header)> = Vec::new();

    let ancestry = determine_new_blocks(&chain, &db, head_hash, &head, finalized_number);
    assert_eq!(ancestry, expected_ancestry);
}

#[test]
fn determine_new_blocks_parent_known_is_fast() {
    let chain = build_chain(10, 9);
    let mut db = MemoryDb::new();

    let head = chain_header(10, 18);
    let head_hash = chain_hash(18);
    let finalized_number = 0;
    let parent_hash = chain_hash(17);

    db.insert_block_entry(tracked_entry(parent_hash, 17));

    // The head is the only new block.
    let expected_ancestry = vec![(head_hash, head)];

    let ancestry = determine_new_blocks(&chain, &db, head_hash, &head, finalized_number);
    assert_eq!(ancestry, expected_ancestry);
}

#[test]
fn determine_new_block_before_finality_is_empty() {
    let chain = build_chain(10, 9);
    let mut db = MemoryDb::new();

    let head = chain_header(10, 18);
    let head_hash = chain_hash(18);
    let parent_hash = chain_hash(17);

    db.insert_block_entry(tracked_entry(parent_hash, 17));

    let after_finality = determine_new_blocks(&chain, &db, head_hash, &head, 17);
    let at_finality = determine_new_blocks(&chain, &db, head_hash, &head, 18);
    let before_finality = determine_new_blocks(&chain, &db, head_hash, &head, 19);

    assert_eq!(after_finality, vec![(head_hash, head)]);
    assert_eq!(at_finality, Vec::new());
    assert_eq!(before_finality, Vec::new());
}
