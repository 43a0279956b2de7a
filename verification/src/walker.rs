//! Walking back from a new head to find the blocks not yet tracked.

use vstd::prelude::*;

use crate::api::{anc_chain, ApprovalDb, ChainApi, ChainModel, chain_wf};
use crate::primitives::{BlockHash, BlockNumber, Header};

verus! {

/// How many ancestor hashes one ancestry request asks for.
pub const ANCESTRY_STEP: usize = 4;

/// Whether the header `hd` in hand for block `h` agrees with the chain
/// model.
pub open spec fn header_consistent(m: ChainModel, h: BlockHash, hd: Header) -> bool {
    m.headers.contains_key(h) ==> m.headers[h] == hd
}

/// Whether every block of a batch resolves: its header is known and the
/// lookup does not fail.
pub open spec fn batch_resolved(m: ChainModel, hs: Seq<BlockHash>) -> bool {
    forall|j: int| 0 <= j < hs.len()
        ==> m.headers.contains_key(hs[j]) && !m.header_failures.contains(hs[j])
}

/// One pass over a resolved batch: blocks are taken in order until the
/// first one that is already tracked or at or below the finalized
/// height. Returns the taken blocks and whether such a boundary block
/// was hit.
pub open spec fn scan_batch(
    headers: Map<BlockHash, Header>,
    known: Set<BlockHash>,
    finalized_number: BlockNumber,
    hs: Seq<BlockHash>,
) -> (Seq<(BlockHash, Header)>, bool)
    decreases hs.len(),
{
    if hs.len() == 0 {
        (Seq::empty(), false)
    } else {
        let h = hs[0];
        if known.contains(h) || headers[h].number <= finalized_number {
            (Seq::empty(), true)
        } else {
            let rest = scan_batch(headers, known, finalized_number, hs.drop_first());
            (seq![(h, headers[h])] + rest.0, rest.1)
        }
    }
}

/// The blocks the backward walk appends after `last`, with `fuel`
/// bounding the number of ancestry batches. The walk ends at genesis, on
/// a failed ancestry lookup, on an empty or unresolved batch, and at the
/// first already-tracked or finalized block.
pub open spec fn walk_from(
    m: ChainModel,
    known: Set<BlockHash>,
    finalized_number: BlockNumber,
    last: (BlockHash, Header),
    fuel: nat,
) -> Seq<(BlockHash, Header)>
    decreases fuel,
{
    if last.1.number <= 1 {
        Seq::empty()
    } else if m.ancestry_failures.contains(last.0) {
        Seq::empty()
    } else {
        let hs = anc_chain(m.headers, last.0, ANCESTRY_STEP as nat);
        if hs.len() == 0 {
            Seq::empty()
        } else if !batch_resolved(m, hs) {
            Seq::empty()
        } else {
            let taken = scan_batch(m.headers, known, finalized_number, hs);
            if taken.1 || taken.0.len() == 0 || fuel == 0 {
                taken.0
            } else {
                taken.0 + walk_from(m, known, finalized_number, taken.0.last(),
                    (fuel - 1) as nat)
            }
        }
    }
}

/// What `determine_new_blocks` returns: nothing for a tracked or already
/// finalized head, else the head and the walked ancestry, oldest first.
pub open spec fn new_blocks_spec(
    m: ChainModel,
    known: Set<BlockHash>,
    head: BlockHash,
    header: Header,
    finalized_number: BlockNumber,
) -> Seq<(BlockHash, Header)> {
    if known.contains(head) || header.number <= finalized_number {
        Seq::empty()
    } else {
        (seq![(head, header)] + walk_from(m, known, finalized_number, (head, header),
            header.number as nat)).reverse()
    }
}

/// A head that is already tracked brings no new blocks.
pub proof fn lemma_known_head_brings_nothing(
    m: ChainModel,
    known: Set<BlockHash>,
    head: BlockHash,
    header: Header,
    finalized_number: BlockNumber,
)
    requires
        known.contains(head),
    ensures
        new_blocks_spec(m, known, head, header, finalized_number)
            == Seq::<(BlockHash, Header)>::empty(),
{
}

/// A head at or below the finalized height brings no new blocks.
pub proof fn lemma_finalized_head_brings_nothing(
    m: ChainModel,
    known: Set<BlockHash>,
    head: BlockHash,
    header: Header,
    finalized_number: BlockNumber,
)
    requires
        header.number <= finalized_number,
    ensures
        new_blocks_spec(m, known, head, header, finalized_number)
            == Seq::<(BlockHash, Header)>::empty(),
{
}

/// A fresh head whose parent is already tracked brings exactly itself.
pub proof fn lemma_parent_known_brings_head(
    m: ChainModel,
    known: Set<BlockHash>,
    head: BlockHash,
    header: Header,
    finalized_number: BlockNumber,
)
    requires
        !known.contains(head),
        header.number > finalized_number,
        known.contains(header.parent_hash),
        header_consistent(m, head, header),
    ensures
        new_blocks_spec(m, known, head, header, finalized_number) == seq![(head, header)],
{
    lemma_walk_parent_known(m, known, finalized_number, (head, header),
        header.number as nat);
    assert(seq![(head, header)] + Seq::<(BlockHash, Header)>::empty()
        =~= seq![(head, header)]);
    assert(seq![(head, header)].reverse() =~= seq![(head, header)]);
}

/// The ancestor hashes of a known block: all known, with consecutively
/// decreasing heights, each the parent of the one before.
pub proof fn lemma_anc_chain(m: ChainModel, h: BlockHash, k: nat)
    requires
        chain_wf(m),
        m.headers.contains_key(h),
    ensures
        ({
            let hs = anc_chain(m.headers, h, k);
            &&& hs.len() <= k
            &&& forall|i: int| 0 <= i < hs.len() ==> {
                &&& m.headers.contains_key(#[trigger] hs[i])
                &&& m.headers[hs[i]].number == m.headers[h].number - i - 1
            }
            &&& (hs.len() > 0 ==> hs[0] == m.headers[h].parent_hash)
            &&& forall|i: int| 0 <= i < hs.len() - 1
                ==> hs[i + 1] == m.headers[#[trigger] hs[i]].parent_hash
        }),
    decreases k,
{
    let hs = anc_chain(m.headers, h, k);
    if k == 0 || m.headers[h].number == 0 {
    } else {
        let p = m.headers[h].parent_hash;
        if m.headers.contains_key(p) {
            lemma_anc_chain(m, p, (k - 1) as nat);
            let rest = anc_chain(m.headers, p, (k - 1) as nat);
            assert(hs == seq![p] + rest);
            assert(forall|i: int| 0 <= i < rest.len() ==> hs[i + 1] == #[trigger] rest[i]);
        }
    }
}

/// What one scan pass takes: a prefix of the batch, every block of it
/// untracked and above the finalized height, carrying the model's
/// headers; the pass takes the whole batch exactly when it hits no
/// boundary block.
pub proof fn lemma_scan_batch(
    headers: Map<BlockHash, Header>,
    known: Set<BlockHash>,
    finalized_number: BlockNumber,
    hs: Seq<BlockHash>,
)
    ensures
        ({
            let taken = scan_batch(headers, known, finalized_number, hs);
            &&& taken.0.len() <= hs.len()
            &&& (taken.1 <==> taken.0.len() < hs.len())
            &&& forall|i: int| 0 <= i < taken.0.len() ==> #[trigger] taken.0[i]
                == (hs[i], headers[hs[i]])
            &&& forall|i: int| 0 <= i < taken.0.len() ==> !known.contains(
                (#[trigger] taken.0[i]).0) && taken.0[i].1.number > finalized_number
            &&& (taken.1 ==> known.contains(hs[taken.0.len() as int])
                || headers[hs[taken.0.len() as int]].number <= finalized_number)
        }),
    decreases hs.len(),
{
    if hs.len() > 0 {
        let h = hs[0];
        if !(known.contains(h) || headers[h].number <= finalized_number) {
            lemma_scan_batch(headers, known, finalized_number, hs.drop_first());
            let rest = scan_batch(headers, known, finalized_number, hs.drop_first());
            let taken = scan_batch(headers, known, finalized_number, hs);
            assert(forall|i: int| 0 <= i < rest.0.len()
                ==> #[trigger] taken.0[i + 1] == rest.0[i]);
            assert(forall|i: int| 0 <= i < hs.drop_first().len()
                ==> #[trigger] hs.drop_first()[i] == hs[i + 1]);
        }
    }
}

/// The walk does not depend on the fuel, as long as the fuel covers the
/// height of the block it starts from.
pub proof fn lemma_walk_fuel_mono(
    m: ChainModel,
    known: Set<BlockHash>,
    finalized_number: BlockNumber,
    last: (BlockHash, Header),
    f1: nat,
    f2: nat,
)
    requires
        chain_wf(m),
        header_consistent(m, last.0, last.1),
        f1 >= last.1.number,
        f2 >= last.1.number,
    ensures
        walk_from(m, known, finalized_number, last, f1)
            == walk_from(m, known, finalized_number, last, f2),
    decreases f1 + f2,
{
    if last.1.number <= 1 || m.ancestry_failures.contains(last.0) {
    } else {
        let hs = anc_chain(m.headers, last.0, ANCESTRY_STEP as nat);
        if hs.len() == 0 || !batch_resolved(m, hs) {
        } else {
            assert(m.headers.contains_key(last.0));
            lemma_anc_chain(m, last.0, ANCESTRY_STEP as nat);
            lemma_scan_batch(m.headers, known, finalized_number, hs);
            let taken = scan_batch(m.headers, known, finalized_number, hs);
            if taken.1 || taken.0.len() == 0 {
            } else {
                let next = taken.0.last();
                let j = taken.0.len() - 1;
                assert(next == (hs[j], m.headers[hs[j]]));
                assert(next.1.number == last.1.number - taken.0.len());
                lemma_walk_fuel_mono(m, known, finalized_number, next, (f1 - 1) as nat,
                    (f2 - 1) as nat);
            }
        }
    }
}

/// An untracked, contiguous chain segment, oldest last: entry `i` is a
/// known block at height `cs[0].1.number - i`, the child of entry
/// `i + 1`, consistent with the chain model and not yet tracked.
pub open spec fn untracked_segment(m: ChainModel, known: Set<BlockHash>,
    cs: Seq<(BlockHash, Header)>) -> bool {
    &&& cs.len() >= 1
    &&& forall|i: int| 0 <= i < cs.len() ==> {
        &&& m.headers.contains_key((#[trigger] cs[i]).0)
        &&& m.headers[cs[i].0] == cs[i].1
        &&& cs[i].1.number == cs[0].1.number - i
        &&& !known.contains(cs[i].0)
    }
    &&& forall|i: int| 1 <= i < cs.len()
        ==> (#[trigger] cs[i]).0 == cs[i - 1].1.parent_hash
}

/// The ancestry of the top of a segment follows the segment itself, for
/// as far as both reach.
proof fn lemma_anc_prefix(m: ChainModel, cs: Seq<(BlockHash, Header)>, k: nat)
    requires
        chain_wf(m),
        cs.len() >= 1,
        forall|i: int| 0 <= i < cs.len() ==> m.headers.contains_key((#[trigger] cs[i]).0)
            && m.headers[cs[i].0] == cs[i].1 && cs[i].1.number == cs[0].1.number - i,
        forall|i: int| 1 <= i < cs.len()
            ==> (#[trigger] cs[i]).0 == cs[i - 1].1.parent_hash,
        cs.last().1.number >= 1,
    ensures
        ({
            let hs = anc_chain(m.headers, cs[0].0, k);
            &&& hs.len() >= k || hs.len() >= cs.len() - 1
            &&& forall|q: int| 0 <= q < hs.len() && q < cs.len() - 1
                ==> #[trigger] hs[q] == cs[q + 1].0
        }),
    decreases k,
{
    let hs = anc_chain(m.headers, cs[0].0, k);
    if k == 0 || cs.len() == 1 {
    } else {
        assert(cs[0].1.number >= 1);
        let p = m.headers[cs[0].0].parent_hash;
        assert(cs[1].0 == cs[0].1.parent_hash);
        assert(p == cs[1].0);
        assert(m.headers.contains_key(p));
        let cs2 = cs.drop_first();
        assert(cs2.len() == cs.len() - 1);
        assert(forall|i: int| 0 <= i < cs2.len() ==> #[trigger] cs2[i] == cs[i + 1]);
        lemma_anc_prefix(m, cs2, (k - 1) as nat);
        let rest = anc_chain(m.headers, p, (k - 1) as nat);
        assert(hs == seq![p] + rest);
        assert(forall|q: int| 0 <= q < rest.len() ==> #[trigger] hs[q + 1] == rest[q]);
    }
}

/// Walking from the top of an untracked segment that ends one block
/// above the finalized height gathers exactly the rest of the segment.
proof fn lemma_walk_segment(
    m: ChainModel,
    known: Set<BlockHash>,
    finalized_number: BlockNumber,
    cs: Seq<(BlockHash, Header)>,
    fuel: nat,
)
    requires
        chain_wf(m),
        forall|h: BlockHash| !m.header_failures.contains(h),
        forall|h: BlockHash| !m.ancestry_failures.contains(h),
        untracked_segment(m, known, cs),
        cs.last().1.number == finalized_number + 1,
        fuel >= cs[0].1.number,
    ensures
        walk_from(m, known, finalized_number, cs[0], fuel) == cs.drop_first(),
    decreases cs.len(),
{
    let last = cs[0];
    let n0 = last.1.number as int;
    assert(n0 == finalized_number + cs.len());
    let w = walk_from(m, known, finalized_number, last, fuel);
    if n0 <= 1 {
        assert(cs.len() == 1);
        assert(cs.drop_first() =~= Seq::<(BlockHash, Header)>::empty());
    } else {
        let hs = anc_chain(m.headers, last.0, ANCESTRY_STEP as nat);
        lemma_anc_chain(m, last.0, ANCESTRY_STEP as nat);
        lemma_anc_prefix(m, cs, ANCESTRY_STEP as nat);
        lemma_scan_batch(m.headers, known, finalized_number, hs);
        let taken = scan_batch(m.headers, known, finalized_number, hs);
        if cs.len() == 1 {
            // Everything the batch reaches sits at or below the
            // finalized height, so nothing is taken.
            if hs.len() > 0 {
                assert(m.headers[hs[0]].number == n0 - 1);
                assert(m.headers[hs[0]].number <= finalized_number);
                assert(taken.0.len() == 0);
                assert(taken.1);
            }
            assert(w =~= cs.drop_first());
        } else {
            assert(hs.len() >= 1);
            assert(batch_resolved(m, hs));
            // The batch follows the segment; every segment block is
            // taken, and a block beyond the segment stops the scan.
            if taken.0.len() > cs.len() - 1 {
                let q = cs.len() - 1;
                assert(taken.0[q] == (hs[q], m.headers[hs[q]]));
                assert(m.headers[hs[q]].number == n0 - q - 1);
                assert(taken.0[q].1.number > finalized_number);
                assert(false);
            }
            assert(taken.0.len() <= cs.len() - 1);
            assert forall|q: int| 0 <= q < taken.0.len()
                implies #[trigger] taken.0[q] == cs[q + 1] by {
                assert(hs[q] == cs[q + 1].0);
                assert(taken.0[q] == (hs[q], m.headers[hs[q]]));
            }
            if taken.1 {
                // The scan hit the boundary: it took the whole rest of
                // the segment first.
                let b = taken.0.len() as int;
                assert(!known.contains(hs[b]) ==> m.headers[hs[b]].number
                    <= finalized_number);
                if b < cs.len() - 1 {
                    assert(hs[b] == cs[b + 1].0);
                    assert(!known.contains(cs[b + 1].0));
                    assert(m.headers[cs[b + 1].0].number == n0 - b - 1);
                    assert(n0 - b - 1 > finalized_number);
                    assert(false);
                }
                assert(taken.0.len() == cs.len() - 1);
                assert(w == taken.0);
                assert(w =~= cs.drop_first());
            } else {
                // The batch ran out first: the walk continues from the
                // last taken block.
                assert(taken.0.len() == hs.len());
                assert(hs.len() >= ANCESTRY_STEP || hs.len() >= cs.len() - 1);
                if hs.len() > cs.len() - 1 {
                    assert(taken.0[cs.len() - 1].1.number > finalized_number);
                    assert(m.headers[hs[cs.len() - 1]].number == n0 - cs.len());
                    assert(false);
                }
                let b = taken.0.len() as int;
                assert(b <= cs.len() - 1);
                let next = taken.0.last();
                assert(next == taken.0[b - 1]);
                assert(next == cs[b]);
                let cs2 = cs.skip(b);
                assert(cs2.len() == cs.len() - b);
                assert(forall|i: int| 0 <= i < cs2.len() ==> #[trigger] cs2[i]
                    == cs[b + i]);
                assert(cs2.last() == cs.last());
                assert(untracked_segment(m, known, cs2));
                assert(next.1.number == n0 - b);
                lemma_walk_segment(m, known, finalized_number, cs2, (fuel - 1) as nat);
                assert(w == taken.0 + walk_from(m, known, finalized_number, next,
                    (fuel - 1) as nat));
                assert(walk_from(m, known, finalized_number, next, (fuel - 1) as nat)
                    == cs2.drop_first());
                assert(w =~= cs.drop_first());
            }
        }
    }
}

/// Completeness of the walk: a head whose untracked ancestry reaches
/// contiguously down to the finalized boundary, with every lookup
/// succeeding, brings exactly the blocks strictly above that boundary up
/// to and including itself, oldest first, with no gaps or duplicates.
pub proof fn lemma_new_blocks_complete(
    m: ChainModel,
    known: Set<BlockHash>,
    finalized_number: BlockNumber,
    cs: Seq<(BlockHash, Header)>,
)
    requires
        chain_wf(m),
        forall|h: BlockHash| !m.header_failures.contains(h),
        forall|h: BlockHash| !m.ancestry_failures.contains(h),
        untracked_segment(m, known, cs),
        cs.last().1.number == finalized_number + 1,
    ensures
        new_blocks_spec(m, known, cs[0].0, cs[0].1, finalized_number) == cs.reverse(),
{
    let head = cs[0].0;
    let header = cs[0].1;
    assert(header.number == finalized_number + cs.len());
    assert(!known.contains(head));
    lemma_walk_segment(m, known, finalized_number, cs, header.number as nat);
    assert(seq![(head, header)] + cs.drop_first() =~= cs);
}

/// Every block the walk appends is untracked, carries its header from
/// the chain model, and sits strictly below the walk's starting block,
/// at heights that keep falling.
pub proof fn lemma_walk_blocks(
    m: ChainModel,
    known: Set<BlockHash>,
    finalized_number: BlockNumber,
    last: (BlockHash, Header),
    fuel: nat,
)
    requires
        chain_wf(m),
        header_consistent(m, last.0, last.1),
    ensures
        ({
            let w = walk_from(m, known, finalized_number, last, fuel);
            &&& forall|i: int| 0 <= i < w.len() ==> {
                &&& !known.contains((#[trigger] w[i]).0)
                &&& m.headers.contains_key(w[i].0)
                &&& m.headers[w[i].0] == w[i].1
                &&& w[i].1.number < last.1.number
            }
            &&& forall|i: int, j: int| 0 <= i < j < w.len()
                ==> #[trigger] w[j].1.number < #[trigger] w[i].1.number
        }),
    decreases fuel,
{
    let w = walk_from(m, known, finalized_number, last, fuel);
    if last.1.number <= 1 || m.ancestry_failures.contains(last.0) {
    } else {
        let hs = anc_chain(m.headers, last.0, ANCESTRY_STEP as nat);
        if hs.len() == 0 || !batch_resolved(m, hs) {
        } else {
            assert(m.headers.contains_key(last.0));
            lemma_anc_chain(m, last.0, ANCESTRY_STEP as nat);
            lemma_scan_batch(m.headers, known, finalized_number, hs);
            let taken = scan_batch(m.headers, known, finalized_number, hs);
            if taken.1 || taken.0.len() == 0 || fuel == 0 {
            } else {
                let next = taken.0.last();
                assert(next == (hs[taken.0.len() - 1], m.headers[hs[taken.0.len() - 1]]));
                lemma_walk_blocks(m, known, finalized_number, next, (fuel - 1) as nat);
                let rest = walk_from(m, known, finalized_number, next, (fuel - 1) as nat);
                assert(forall|i: int| 0 <= i < taken.0.len()
                    ==> #[trigger] w[i] == taken.0[i]);
                assert(forall|i: int| 0 <= i < rest.len()
                    ==> #[trigger] w[taken.0.len() + i] == rest[i]);
                assert(forall|i: int| 0 <= i < taken.0.len()
                    ==> (#[trigger] taken.0[i]).1.number == last.1.number - i - 1);
                assert(next.1.number == last.1.number - taken.0.len());
            }
        }
    }
}

/// The blocks a head brings are pairwise distinct and none of them is
/// already tracked.
pub proof fn lemma_new_blocks_fresh(
    m: ChainModel,
    known: Set<BlockHash>,
    head: BlockHash,
    header: Header,
    finalized_number: BlockNumber,
)
    requires
        chain_wf(m),
        header_consistent(m, head, header),
    ensures
        ({
            let nb = new_blocks_spec(m, known, head, header, finalized_number);
            &&& forall|i: int| 0 <= i < nb.len() ==> !known.contains((#[trigger] nb[i]).0)
            &&& forall|i: int, j: int| 0 <= i < j < nb.len()
                ==> (#[trigger] nb[i]).0 != (#[trigger] nb[j]).0
        }),
{
    let nb = new_blocks_spec(m, known, head, header, finalized_number);
    if known.contains(head) || header.number <= finalized_number {
    } else {
        let w = walk_from(m, known, finalized_number, (head, header),
            header.number as nat);
        lemma_walk_blocks(m, known, finalized_number, (head, header),
            header.number as nat);
        let acc = seq![(head, header)] + w;
        assert(acc[0] == (head, header));
        assert(forall|i: int| 1 <= i < acc.len() ==> #[trigger] acc[i] == w[i - 1]);
        assert forall|i: int, j: int| 0 <= i < j < acc.len()
            implies (#[trigger] acc[i]).0 != (#[trigger] acc[j]).0 by {
            if i == 0 {
                if acc[0].0 == acc[j].0 {
                    if m.headers.contains_key(acc[j].0) {
                        assert(m.headers[acc[j].0] == acc[j].1);
                        assert(acc[j].1.number < header.number);
                    }
                }
            } else {
                if acc[i].0 == acc[j].0 {
                    assert(m.headers[acc[i].0] == acc[i].1);
                    assert(m.headers[acc[j].0] == acc[j].1);
                    assert(w[j - 1].1.number < w[i - 1].1.number);
                }
            }
        }
        assert(forall|i: int| 0 <= i < nb.len() ==> #[trigger] nb[i] == acc[nb.len() - 1
            - i]);
    }
}

/// When the head's parent is already tracked, the walk appends nothing.
pub proof fn lemma_walk_parent_known(
    m: ChainModel,
    known: Set<BlockHash>,
    finalized_number: BlockNumber,
    last: (BlockHash, Header),
    fuel: nat,
)
    requires
        known.contains(last.1.parent_hash),
        header_consistent(m, last.0, last.1),
    ensures
        walk_from(m, known, finalized_number, last, fuel) == Seq::<(BlockHash, Header)>::empty(),
{
    if last.1.number <= 1 || m.ancestry_failures.contains(last.0) {
    } else {
        let hs = anc_chain(m.headers, last.0, ANCESTRY_STEP as nat);
        if hs.len() > 0 {
            assert(m.headers.contains_key(last.0));
            assert(hs[0] == m.headers[last.0].parent_hash);
            assert(known.contains(hs[0]));
            if batch_resolved(m, hs) {
                let taken = scan_batch(m.headers, known, finalized_number, hs);
                assert(taken.0 =~= Seq::<(BlockHash, Header)>::empty());
            }
        }
    }
}

/// Resolves the headers of one ancestry batch; `None` if any of them is
/// unknown or fails to resolve.
fn fetch_batch<C: ChainApi>(chain: &C, batch_hashes: &Vec<BlockHash>) -> (r: Option<
    Vec<Header>>)
    requires
        chain.inv(),
    ensures
        match r {
            Some(v) => {
                &&& batch_resolved(chain.model(), batch_hashes@)
                &&& v@.len() == batch_hashes@.len()
                &&& forall|q: int| 0 <= q < v@.len()
                    ==> v@[q] == chain.model().headers[#[trigger] batch_hashes@[q]]
            },
            None => !batch_resolved(chain.model(), batch_hashes@),
        },
{
    let ghost m = chain.model();
    let ghost hs = batch_hashes@;
    let mut batch_headers: Vec<Header> = Vec::new();
    let mut all = true;
    let mut j: usize = 0;
    while j < batch_hashes.len()
        invariant
            chain.inv(),
            m == chain.model(),
            hs == batch_hashes@,
            j <= hs.len(),
            all ==> batch_headers@.len() == j,
            all ==> forall|q: int| 0 <= q < j ==> m.headers.contains_key(#[trigger] hs[q])
                && !m.header_failures.contains(hs[q]) && batch_headers@[q] == m.headers[hs[q]],
            !all ==> !batch_resolved(m, hs),
        decreases hs.len() - j,
    {
        match chain.block_header(batch_hashes[j]) {
            Ok(Some(hd)) => {
                batch_headers.push(hd);
            }
            Ok(None) => {
                all = false;
            }
            Err(_) => {
                all = false;
            }
        }
        j = j + 1;
    }
    if all {
        Some(batch_headers)
    } else {
        None
    }
}

/// Appends the new blocks of one resolved batch to `ancestry`, stopping
/// at the first already-tracked or finalized block; reports whether such
/// a block was hit.
fn scan_new_blocks<D: ApprovalDb>(
    db: &D,
    Ghost(m): Ghost<ChainModel>,
    batch_hashes: &Vec<BlockHash>,
    batch_headers: &Vec<Header>,
    finalized_number: BlockNumber,
    ancestry: &mut Vec<(BlockHash, Header)>,
) -> (hit: bool)
    requires
        db.inv(),
        batch_headers@.len() == batch_hashes@.len(),
        forall|q: int| 0 <= q < batch_hashes@.len()
            ==> m.headers.contains_key(#[trigger] batch_hashes@[q])
                && batch_headers@[q] == m.headers[batch_hashes@[q]],
    ensures
        final(ancestry)@ == old(ancestry)@ + scan_batch(m.headers, db.blocks().dom(),
            finalized_number, batch_hashes@).0,
        hit == scan_batch(m.headers, db.blocks().dom(), finalized_number,
            batch_hashes@).1,
{
    let ghost known = db.blocks().dom();
    let ghost hs = batch_hashes@;
    let ghost taken = scan_batch(m.headers, known, finalized_number, hs);
    let ghost pre = ancestry@;
    proof {
        lemma_scan_batch(m.headers, known, finalized_number, hs);
    }
    let mut hit = false;
    let mut t: usize = 0;
    while t < batch_hashes.len() && !hit
        invariant
            db.inv(),
            known == db.blocks().dom(),
            hs == batch_hashes@,
            batch_headers@.len() == hs.len(),
            forall|q: int| 0 <= q < hs.len() ==> m.headers.contains_key(#[trigger] hs[q])
                && batch_headers@[q] == m.headers[hs[q]],
            t <= hs.len(),
            taken == scan_batch(m.headers, known, finalized_number, hs),
            !hit ==> t <= taken.0.len(),
            !hit ==> ancestry@ =~= pre + taken.0.take(t as int),
            hit ==> ancestry@ =~= pre + taken.0 && taken.1,
        decreases hs.len() - t + (if hit { 0int } else { 1int }),
    {
        let h = batch_hashes[t];
        let hd = batch_headers[t];
        let tracked_already = db.load_block_entry(h).is_some();
        proof {
            lemma_scan_batch(m.headers, known, finalized_number, hs);
            assert(tracked_already <==> known.contains(h));
            assert(hd == m.headers[hs[t as int]]);
            if t < taken.0.len() {
                assert(taken.0[t as int] == (hs[t as int], m.headers[hs[t as int]]));
                assert(!known.contains(taken.0[t as int].0));
                assert(taken.0[t as int].1.number > finalized_number);
            } else {
                assert(t == taken.0.len());
                assert(taken.0.len() < hs.len());
                assert(taken.1);
                assert(known.contains(hs[t as int])
                    || m.headers[hs[t as int]].number <= finalized_number);
            }
        }
        if tracked_already || hd.number <= finalized_number {
            proof {
                assert(t == taken.0.len());
                assert(taken.0.take(t as int) =~= taken.0);
                assert(ancestry@ =~= pre + taken.0);
            }
            hit = true;
        } else {
            proof {
                assert(t < taken.0.len());
                assert((pre + taken.0.take(t as int)).push(taken.0[t as int]) =~= pre
                    + taken.0.take(t as int + 1));
            }
            ancestry.push((h, hd));
        }
        if !hit {
            t = t + 1;
        }
    }
    proof {
        if !hit {
            assert(t == hs.len());
            assert(taken.0.len() == hs.len());
            assert(taken.0.take(t as int) =~= taken.0);
        }
        assert(ancestry@ == pre + taken.0);
    }
    hit
}

/// Determines the not-yet-tracked blocks a new head brings: the head
/// itself and its untracked ancestors above the finalized height, oldest
/// first. Lookup failures end the walk early; what was gathered so far
/// is still returned.
#[verifier::rlimit(60)]
pub fn determine_new_blocks<C: ChainApi, D: ApprovalDb>(
    chain: &C,
    db: &D,
    head: BlockHash,
    header: &Header,
    finalized_number: BlockNumber,
) -> (r: Vec<(BlockHash, Header)>)
    requires
        chain.inv(),
        db.inv(),
        chain_wf(chain.model()),
        header_consistent(chain.model(), head, *header),
    ensures
        r@ == new_blocks_spec(chain.model(), db.blocks().dom(), head, *header,
            finalized_number),
{
    let ghost m = chain.model();
    let ghost known = db.blocks().dom();
    let ghost fin = finalized_number;

    // A tracked or already finalized head brings nothing.
    let already_known = db.load_block_entry(head).is_some();
    if already_known || header.number <= finalized_number {
        return Vec::new();
    }

    let mut ancestry: Vec<(BlockHash, Header)> = Vec::new();
    ancestry.push((head, *header));

    // Fast path: the parent is tracked, so the head is the only new
    // block and no ancestry request is needed.
    if db.load_block_entry(header.parent_hash).is_some() {
        proof {
            lemma_walk_parent_known(m, known, fin, (head, *header), header.number as nat);
            assert(ancestry@ + Seq::<(BlockHash, Header)>::empty() =~= ancestry@);
            assert(ancestry@.reverse() =~= ancestry@);
        }
        return ancestry;
    }

    let mut stopped = false;
    while !stopped
        invariant
            chain.inv(),
            db.inv(),
            chain_wf(m),
            m == chain.model(),
            known == db.blocks().dom(),
            fin == finalized_number,
            ancestry@.len() >= 1,
            header_consistent(m, ancestry@.last().0, ancestry@.last().1),
            seq![(head, *header)] + walk_from(m, known, fin, (head, *header),
                header.number as nat) == ancestry@ + (if stopped {
                Seq::<(BlockHash, Header)>::empty()
            } else {
                walk_from(m, known, fin, ancestry@.last(),
                    ancestry@.last().1.number as nat)
            }),
        decreases (if stopped { 0int } else { ancestry@.last().1.number + 1int }),
    {
        let last_index = ancestry.len() - 1;
        let (last_hash, last_header) = ancestry[last_index];
        proof {
            assert((last_hash, last_header) == ancestry@.last());
        }
        let ghost l = ancestry@.last();
        let ghost n = l.1.number as nat;

        // The walk never reaches past genesis.
        if last_header.number <= 1 {
            proof {
                assert(walk_from(m, known, fin, l, n) == Seq::<(BlockHash, Header)>::empty());
            }
            stopped = true;
        } else {
            match chain.ancestors(last_hash, ANCESTRY_STEP) {
                None => {
                    proof {
                        assert(m.ancestry_failures.contains(l.0));
                        assert(walk_from(m, known, fin, l, n) == Seq::<(BlockHash,
                            Header)>::empty());
                    }
                    stopped = true;
                }
                Some(batch_hashes) => {
                    let ghost hs = batch_hashes@;
                    proof {
                        assert(hs == anc_chain(m.headers, l.0, ANCESTRY_STEP as nat));
                        assert(!m.ancestry_failures.contains(l.0));
                    }
                    if batch_hashes.len() == 0 {
                        proof {
                            assert(hs.len() == 0);
                            assert(walk_from(m, known, fin, l, n) == Seq::<(BlockHash,
                                Header)>::empty());
                        }
                        stopped = true;
                    } else {
                        // Resolve the whole batch; one miss discards it
                        // and ends the walk.
                        match fetch_batch(chain, &batch_hashes) {
                            None => {
                                proof {
                                    assert(!batch_resolved(m, hs));
                                    assert(walk_from(m, known, fin, l, n)
                                        == Seq::<(BlockHash, Header)>::empty());
                                }
                                stopped = true;
                            }
                            Some(batch_headers) => {
                                proof {
                                    assert(hs.len() > 0);
                                    if !m.headers.contains_key(l.0) {
                                        assert(anc_chain(m.headers, l.0,
                                            ANCESTRY_STEP as nat).len() == 0);
                                        assert(false);
                                    }
                                    lemma_anc_chain(m, l.0, ANCESTRY_STEP as nat);
                                    lemma_scan_batch(m.headers, known, fin, hs);
                                }
                                let ghost taken = scan_batch(m.headers, known, fin, hs);
                                let ghost pre = ancestry@;
                                let hit = scan_new_blocks(db, Ghost(m), &batch_hashes,
                                    &batch_headers, finalized_number, &mut ancestry);
                                proof {
                                    assert(hit == taken.1);
                                    assert(ancestry@ == pre + taken.0);
                                    lemma_scan_batch(m.headers, known, fin, hs);
                                    lemma_anc_chain(m, l.0, ANCESTRY_STEP as nat);
                                }
                                if hit {
                                    proof {
                                        assert(walk_from(m, known, fin, l, n) == taken.0);
                                        assert((pre + taken.0) + Seq::<(BlockHash,
                                            Header)>::empty() =~= pre + taken.0);
                                        if taken.0.len() > 0 {
                                            let j = taken.0.len() - 1;
                                            assert(taken.0[j] == (hs[j],
                                                m.headers[hs[j]]));
                                            assert(ancestry@.last() == taken.0[j]);
                                        } else {
                                            assert(ancestry@ =~= pre);
                                        }
                                    }
                                    stopped = true;
                                } else {
                                    proof {
                                        assert(taken.0.len() == hs.len());
                                        assert(ancestry@ =~= pre + taken.0);
                                        let next = taken.0.last();
                                        let j = taken.0.len() - 1;
                                        assert(taken.0[j] == (hs[j], m.headers[hs[j]]));
                                        assert(m.headers[l.0] == l.1);
                                        assert(m.headers[hs[j]].number == l.1.number - j
                                            - 1);
                                        assert(next.1.number == l.1.number
                                            - taken.0.len());
                                        assert(n >= 1);
                                        assert(walk_from(m, known, fin, l, n) == taken.0
                                            + walk_from(m, known, fin, next,
                                            (n - 1) as nat));
                                        assert(m.headers.contains_key(next.0)
                                            && m.headers[next.0] == next.1);
                                        lemma_walk_fuel_mono(m, known, fin, next,
                                            (n - 1) as nat, next.1.number as nat);
                                        assert(ancestry@.last() == next);
                                        assert((pre + taken.0) + walk_from(m, known, fin,
                                            next, next.1.number as nat) =~= pre + (taken.0
                                            + walk_from(m, known, fin, next,
                                            next.1.number as nat)));
                                    }
                                }
                            }
                        }
                    }
                }
            }
        }
    }

    proof {
        assert(ancestry@ + Seq::<(BlockHash, Header)>::empty() =~= ancestry@);
        assert(ancestry@ == seq![(head, *header)] + walk_from(m, known, fin,
            (head, *header), header.number as nat));
    }

    // Oldest first.
    let mut out: Vec<(BlockHash, Header)> = Vec::new();
    let mut idx = ancestry.len();
    while idx > 0
        invariant
            idx <= ancestry@.len(),
            out@.len() == ancestry@.len() - idx,
            forall|q: int| 0 <= q < out@.len()
                ==> #[trigger] out@[q] == ancestry@[ancestry@.len() - 1 - q],
        decreases idx,
    {
        idx = idx - 1;
        out.push(ancestry[idx]);
    }
    proof {
        assert(out@ =~= ancestry@.reverse());
    }
    out
}

} // verus!
