use vstd::prelude::*;

use crate::types::{BlockInfo, NetworkMetrics, RawBlock};
use crate::types::{to_block_info, valid_block};
use std::collections::HashSet;
use std::collections::VecDeque;

verus! {

/// The trailing span, in seconds, over which metrics are aggregated. The
/// window is bounded by elapsed time, never by record count.
pub const WINDOW_SECONDS: u64 = 60;

/// Gas summed over a window, oldest record first.
pub open spec fn sum_gas(s: Seq<BlockInfo>) -> int
    decreases s.len(),
{
    if s.len() == 0 {
        0
    } else {
        s[0].gas + sum_gas(s.drop_first())
    }
}

/// Transaction counts summed over a window, oldest record first.
pub open spec fn sum_txs(s: Seq<BlockInfo>) -> int
    decreases s.len(),
{
    if s.len() == 0 {
        0
    } else {
        s[0].txs + sum_txs(s.drop_first())
    }
}

/// The byte count a record contributes: its size if it reported one, else 0.
pub open spec fn data_of(b: BlockInfo) -> int {
    if b.size is Some {
        b.size->0 as int
    } else {
        0
    }
}

/// Byte sizes summed over a window, oldest record first.
pub open spec fn sum_data(s: Seq<BlockInfo>) -> int
    decreases s.len(),
{
    if s.len() == 0 {
        0
    } else {
        data_of(s[0]) + sum_data(s.drop_first())
    }
}

/// Whether some record in `s` carries the block number `bn`.
pub open spec fn has_block(s: Seq<BlockInfo>, bn: u64) -> bool {
    exists|i: int| 0 <= i < s.len() && s[i].bn == bn
}

/// The block numbers present in a window.
pub open spec fn block_numbers(s: Seq<BlockInfo>) -> Set<u64> {
    Set::new(|bn: u64| has_block(s, bn))
}

/// No two records of `s` share a block number.
pub open spec fn unique_numbers(s: Seq<BlockInfo>) -> bool {
    forall|i: int, j: int| 0 <= i < j < s.len() ==> s[i].bn != s[j].bn
}

/// A record has left the window at time `now` once `now - timestamp`
/// reaches the window length.
pub open spec fn expired(b: BlockInfo, now: u64) -> bool {
    now >= WINDOW_SECONDS && b.timestamp <= now - WINDOW_SECONDS
}

/// Eviction at time `now`: records are removed from the front of the
/// window while the front record is expired.
pub open spec fn evict_model(s: Seq<BlockInfo>, now: u64) -> Seq<BlockInfo>
    decreases s.len(),
{
    if s.len() > 0 && expired(s[0], now) {
        evict_model(s.drop_first(), now)
    } else {
        s
    }
}

/// Ingestion at time `now`: a record whose number is already present is a
/// no-op; otherwise eviction runs first and the record joins the tail.
pub open spec fn spec_ingest(s: Seq<BlockInfo>, b: BlockInfo, now: u64) -> Seq<BlockInfo> {
    if has_block(s, b.bn) {
        s
    } else {
        evict_model(s, now).push(b)
    }
}

/// The snapshot divisor: the gap between `now` and the oldest retained
/// record. Zero when the window is empty or the gap is not positive.
pub open spec fn spec_elapsed(s: Seq<BlockInfo>, now: u64) -> u64 {
    if s.len() > 0 && s[0].timestamp < now {
        (now - s[0].timestamp) as u64
    } else {
        0
    }
}

/// The most recently ingested block number, 0 for an empty window.
pub open spec fn latest_block(s: Seq<BlockInfo>) -> u64 {
    if s.len() > 0 {
        s[s.len() - 1].bn
    } else {
        0
    }
}

/// What a snapshot taken at time `now` reports, given the window contents
/// `pre` before the call and `post` after it.
pub open spec fn snapshot_matches(
    pre: Seq<BlockInfo>,
    post: Seq<BlockInfo>,
    r: NetworkMetrics,
    now: u64,
) -> bool {
    let retained = evict_model(pre, now);
    &&& post == retained
    &&& r.block == latest_block(retained)
    &&& r.total_gas == sum_gas(retained)
    &&& r.total_txs == sum_txs(retained)
    &&& r.total_data == sum_data(retained)
    &&& r.elapsed_secs == spec_elapsed(retained, now)
}

pub proof fn lemma_sums_nonneg(s: Seq<BlockInfo>)
    ensures
        sum_gas(s) >= 0,
        sum_txs(s) >= 0,
        sum_data(s) >= 0,
    decreases s.len(),
{
    if s.len() > 0 {
        lemma_sums_nonneg(s.drop_first());
    }
}

pub proof fn lemma_sum_push(s: Seq<BlockInfo>, b: BlockInfo)
    ensures
        sum_gas(s.push(b)) == sum_gas(s) + b.gas,
        sum_txs(s.push(b)) == sum_txs(s) + b.txs,
        sum_data(s.push(b)) == sum_data(s) + data_of(b),
    decreases s.len(),
{
    if s.len() == 0 {
        assert(s.push(b)[0] == b);
        assert(s.push(b).drop_first() =~= Seq::<BlockInfo>::empty());
        assert(sum_gas(s.push(b)) == b.gas + sum_gas(s.push(b).drop_first()));
        assert(sum_txs(s.push(b)) == b.txs + sum_txs(s.push(b).drop_first()));
        assert(sum_data(s.push(b)) == data_of(b) + sum_data(s.push(b).drop_first()));
    } else {
        assert(s.push(b)[0] == s[0]);
        assert(s.push(b).drop_first() =~= s.drop_first().push(b));
        lemma_sum_push(s.drop_first(), b);
        assert(sum_gas(s.push(b)) == s[0].gas + sum_gas(s.drop_first().push(b)));
        assert(sum_txs(s.push(b)) == s[0].txs + sum_txs(s.drop_first().push(b)));
        assert(sum_data(s.push(b)) == data_of(s[0]) + sum_data(s.drop_first().push(b)));
    }
}

pub proof fn lemma_evict_sums_le(s: Seq<BlockInfo>, now: u64)
    ensures
        sum_gas(evict_model(s, now)) <= sum_gas(s),
        sum_txs(evict_model(s, now)) <= sum_txs(s),
        sum_data(evict_model(s, now)) <= sum_data(s),
    decreases s.len(),
{
    if s.len() > 0 && expired(s[0], now) {
        lemma_evict_sums_le(s.drop_first(), now);
    }
}

proof fn lemma_evict_has_block(s: Seq<BlockInfo>, now: u64, bn: u64)
    ensures
        has_block(evict_model(s, now), bn) ==> has_block(s, bn),
    decreases s.len(),
{
    if s.len() > 0 && expired(s[0], now) {
        lemma_evict_has_block(s.drop_first(), now, bn);
        if has_block(s.drop_first(), bn) {
            let i = choose|i: int|
                0 <= i < s.drop_first().len() && s.drop_first()[i].bn == bn;
            assert(s[i + 1].bn == bn);
        }
    }
}

proof fn lemma_filter_all_true(s: Seq<BlockInfo>, pred: spec_fn(BlockInfo) -> bool)
    requires
        forall|i: int| 0 <= i < s.len() ==> pred(s[i]),
    ensures
        s.filter(pred) == s,
    decreases s.len(),
{
    reveal(Seq::filter);
    if s.len() > 0 {
        assert(pred(s.last()));
        lemma_filter_all_true(s.drop_last(), pred);
        assert(s.filter(pred) =~= s);
    } else {
        assert(s.filter(pred) =~= s);
    }
}

/// Eviction at time `now` removes exactly the records whose age `now -
/// timestamp` has reached the window length, and no others — provided the
/// window's timestamps are nondecreasing, as they are when blocks arrive
/// in chain order. (A window holding a newer record in front of an older
/// one only sheds the older one once the front has expired too.)
pub proof fn lemma_evict_exact(s: Seq<BlockInfo>, now: u64)
    requires
        forall|i: int, j: int| 0 <= i <= j < s.len() ==> s[i].timestamp <= s[j].timestamp,
    ensures
        evict_model(s, now) == s.filter(|b: BlockInfo| !expired(b, now)),
    decreases s.len(),
{
    let pred = |b: BlockInfo| !expired(b, now);
    if s.len() == 0 {
        reveal(Seq::filter);
        assert(s.filter(pred) =~= s);
    } else if expired(s[0], now) {
        let rest = s.drop_first();
        assert forall|i: int, j: int| 0 <= i <= j < rest.len() implies
            rest[i].timestamp <= rest[j].timestamp by {
            assert(s[i + 1].timestamp <= s[j + 1].timestamp);
        }
        lemma_evict_exact(rest, now);
        assert(s =~= seq![s[0]] + rest);
        Seq::<BlockInfo>::filter_distributes_over_add(seq![s[0]], rest, pred);
        assert(seq![s[0]].filter(pred) =~= Seq::<BlockInfo>::empty()) by {
            reveal_with_fuel(Seq::filter, 2);
            assert(seq![s[0]].drop_last() =~= Seq::<BlockInfo>::empty());
        }
        assert(Seq::<BlockInfo>::empty() + rest.filter(pred) =~= rest.filter(pred));
    } else {
        assert forall|j: int| 0 <= j < s.len() implies pred(s[j]) by {
            assert(s[0].timestamp <= s[j].timestamp);
        }
        lemma_filter_all_true(s, pred);
    }
}

/// A 60-second sliding window of block records with running totals kept in
/// lockstep: each total always equals the sum of that field over the
/// records currently retained, maintained incrementally on insert and
/// evict, never recomputed from scratch.
pub struct BlockMetricsBuffer {
    pub network: String,
    pub buffer: VecDeque<BlockInfo>,
    pub seen: HashSet<u64>,
    pub total_txs: usize,
    pub total_gas: u64,
    pub total_data: u64,
}

impl BlockMetricsBuffer {
    /// The window's invariant: each running total equals the sum of its
    /// field over the retained records, the dedup set holds exactly the
    /// retained block numbers, and no block number occurs twice.
    pub open spec fn wf(&self) -> bool {
        &&& self.total_gas == sum_gas(self.buffer@)
        &&& self.total_txs == sum_txs(self.buffer@)
        &&& self.total_data == sum_data(self.buffer@)
        &&& self.seen@ == block_numbers(self.buffer@)
        &&& unique_numbers(self.buffer@)
    }

    /// An empty window for one network. Rates ramp up over the first
    /// window length as records arrive.
    pub fn new(network: String) -> (r: Self)
        ensures
            r.wf(),
            r.network@ == network@,
            r.buffer@.len() == 0,
    {
        let r = Self {
            network,
            buffer: VecDeque::new(),
            seen: HashSet::new(),
            total_txs: 0,
            total_gas: 0,
            total_data: 0,
        };
        proof {
            assert(r.seen@ =~= block_numbers(r.buffer@));
        }
        r
    }

    /// Removes expired records from the front of the window at time `now`,
    /// subtracting each one's contributions from the running totals and
    /// dropping its number from the dedup set.
    pub fn evict(&mut self, now: u64)
        requires
            old(self).wf(),
        ensures
            final(self).wf(),
            final(self).network@ == old(self).network@,
            final(self).buffer@ == evict_model(old(self).buffer@, now),
    {
        let ghost orig_blocks = self.buffer@;
        let ghost orig_net = self.network@;
        while self.buffer.len() > 0 && now >= WINDOW_SECONDS
            && self.buffer[0].timestamp <= now - WINDOW_SECONDS
            invariant
                self.wf(),
                self.network@ == orig_net,
                evict_model(self.buffer@, now) == evict_model(orig_blocks, now),
            decreases self.buffer@.len(),
        {
            let ghost pre = self.buffer@;
            let b = self.buffer.pop_front().unwrap();
            proof {
                assert(pre.drop_first() =~= self.buffer@);
                lemma_sums_nonneg(self.buffer@);
            }
            self.total_txs = self.total_txs - b.txs;
            self.total_gas = self.total_gas - b.gas;
            if let Some(size) = b.size {
                self.total_data = self.total_data - size;
            }
            self.seen.remove(&b.bn);
            proof {
                let post = self.buffer@;
                assert forall|bn: u64| has_block(post, bn) implies has_block(pre, bn)
                    && bn != b.bn by {
                    let i = choose|i: int| 0 <= i < post.len() && post[i].bn == bn;
                    assert(pre[i + 1].bn == bn);
                    if bn == b.bn {
                        assert(pre[0].bn == b.bn);
                    }
                }
                assert forall|bn: u64| has_block(pre, bn) && bn != b.bn implies
                    has_block(post, bn) by {
                    let i = choose|i: int| 0 <= i < pre.len() && pre[i].bn == bn;
                    assert(i != 0);
                    assert(post[i - 1].bn == bn);
                }
                assert(self.seen@ =~= block_numbers(post));
            }
        }
    }

    /// Ingests one validated record at time `now`. A record whose number is
    /// already in the dedup set is a no-op (idempotent, so duplicate
    /// fetches are harmless). Otherwise eviction runs first, then the
    /// record is appended and its contributions are added to the totals.
    pub fn ingest(&mut self, block: BlockInfo, now: u64)
        requires
            old(self).wf(),
            !has_block(old(self).buffer@, block.bn) ==> sum_gas(old(self).buffer@) + block.gas
                <= u64::MAX,
            !has_block(old(self).buffer@, block.bn) ==> sum_txs(old(self).buffer@) + block.txs
                <= usize::MAX,
            !has_block(old(self).buffer@, block.bn) ==> sum_data(old(self).buffer@) + data_of(
                block,
            ) <= u64::MAX,
        ensures
            final(self).wf(),
            final(self).network@ == old(self).network@,
            final(self).buffer@ == spec_ingest(old(self).buffer@, block, now),
            has_block(old(self).buffer@, block.bn) ==> *final(self) == *old(self),
    {
        if self.seen.contains(&block.bn) {
            return;
        }
        let ghost pre = self.buffer@;
        self.evict(now);
        proof {
            lemma_evict_sums_le(pre, now);
            lemma_sums_nonneg(self.buffer@);
        }
        let ghost mid = self.buffer@;
        self.buffer.push_back(block);
        self.total_txs = self.total_txs + block.txs;
        self.total_gas = self.total_gas + block.gas;
        if let Some(size) = block.size {
            self.total_data = self.total_data + size;
        }
        self.seen.insert(block.bn);
        proof {
            lemma_sum_push(mid, block);
            lemma_evict_has_block(pre, now, block.bn);
            let post = self.buffer@;
            assert(post =~= mid.push(block));
            assert forall|i: int, j: int| 0 <= i < j < post.len() implies
                post[i].bn != post[j].bn by {
                if j == post.len() - 1 {
                    assert(!has_block(mid, block.bn));
                    assert(mid[i].bn != block.bn);
                }
            }
            assert forall|bn: u64| has_block(post, bn) implies
                self.seen@.contains(bn) by {
                let i = choose|i: int| 0 <= i < post.len() && post[i].bn == bn;
                if i < mid.len() {
                    assert(has_block(mid, bn));
                }
            }
            assert forall|bn: u64| self.seen@.contains(bn) implies
                has_block(post, bn) by {
                if bn == block.bn {
                    assert(post[post.len() - 1].bn == bn);
                } else {
                    assert(has_block(mid, bn));
                    let i = choose|i: int| 0 <= i < mid.len() && mid[i].bn == bn;
                    assert(post[i].bn == bn);
                }
            }
            assert(self.seen@ =~= block_numbers(post));
        }
    }

    /// A point-in-time snapshot at time `now`: eviction runs first, then
    /// the current totals are reported together with the divisor `now -
    /// oldest retained timestamp`. An empty window — or one whose divisor
    /// would be zero — reports zero totals and a zero divisor, so rates
    /// read as zero and nothing ever divides by zero.
    pub fn snapshot(&mut self, now: u64) -> (r: NetworkMetrics)
        requires
            old(self).wf(),
        ensures
            final(self).wf(),
            final(self).network@ == old(self).network@,
            r.network@ == old(self).network@,
            snapshot_matches(old(self).buffer@, final(self).buffer@, r, now),
            evict_model(old(self).buffer@, now).len() == 0 ==> r.total_gas == 0
                && r.total_txs == 0 && r.total_data == 0 && r.elapsed_secs == 0
                && r.block == 0,
    {
        self.evict(now);
        let elapsed: u64 = if self.buffer.len() > 0 && self.buffer[0].timestamp < now {
            now - self.buffer[0].timestamp
        } else {
            0
        };
        let block: u64 = if self.buffer.len() > 0 {
            self.buffer[self.buffer.len() - 1].bn
        } else {
            0
        };
        NetworkMetrics {
            network: self.network.clone(),
            block,
            total_gas: self.total_gas,
            total_txs: self.total_txs,
            total_data: self.total_data,
            elapsed_secs: elapsed,
        }
    }

    /// Validates a fetched block and ingests it, using the wall clock for
    /// eviction. A block without a number, or with an implausible gas
    /// value, is silently dropped: the window, totals and dedup set are
    /// untouched.
    pub fn add_block(&mut self, block: &RawBlock)
        requires
            old(self).wf(),
            valid_block(*block) && !has_block(old(self).buffer@, to_block_info(*block).bn)
                ==> sum_gas(old(self).buffer@) + to_block_info(*block).gas <= u64::MAX,
            valid_block(*block) && !has_block(old(self).buffer@, to_block_info(*block).bn)
                ==> sum_txs(old(self).buffer@) + to_block_info(*block).txs <= usize::MAX,
            valid_block(*block) && !has_block(old(self).buffer@, to_block_info(*block).bn)
                ==> sum_data(old(self).buffer@) + data_of(to_block_info(*block)) <= u64::MAX,
        ensures
            final(self).wf(),
            final(self).network@ == old(self).network@,
            valid_block(*block) ==> exists|now: u64| final(self).buffer@ == #[trigger] spec_ingest(
                old(self).buffer@,
                to_block_info(*block),
                now,
            ),
            !valid_block(*block) ==> *final(self) == *old(self),
    {
        if let Some(info) = BlockInfo::try_from_block(block) {
            self.add_block_info(info);
        }
    }

    /// Removes expired records using the wall clock, as before a poll
    /// tick's snapshot: the window shrinks with time even absent new
    /// blocks.
    pub fn update(&mut self)
        requires
            old(self).wf(),
        ensures
            final(self).wf(),
            final(self).network@ == old(self).network@,
            exists|now: u64| final(self).buffer@ == #[trigger] evict_model(
                old(self).buffer@,
                now,
            ),
    {
        let now = now_unix();
        self.evict(now);
    }

    /// Ingests one validated record using the wall clock for eviction.
    pub fn add_block_info(&mut self, block: BlockInfo)
        requires
            old(self).wf(),
            !has_block(old(self).buffer@, block.bn) ==> sum_gas(old(self).buffer@) + block.gas
                <= u64::MAX,
            !has_block(old(self).buffer@, block.bn) ==> sum_txs(old(self).buffer@) + block.txs
                <= usize::MAX,
            !has_block(old(self).buffer@, block.bn) ==> sum_data(old(self).buffer@) + data_of(
                block,
            ) <= u64::MAX,
        ensures
            final(self).wf(),
            final(self).network@ == old(self).network@,
            exists|now: u64| final(self).buffer@ == #[trigger] spec_ingest(
                old(self).buffer@,
                block,
                now,
            ),
            has_block(old(self).buffer@, block.bn) ==> *final(self) == *old(self),
    {
        let now = now_unix();
        self.ingest(block, now);
    }

    /// A snapshot taken at the wall clock's current time.
    pub fn get_metrics(&mut self) -> (r: NetworkMetrics)
        requires
            old(self).wf(),
        ensures
            final(self).wf(),
            final(self).network@ == old(self).network@,
            r.network@ == old(self).network@,
            exists|now: u64| #[trigger] snapshot_matches(
                old(self).buffer@,
                final(self).buffer@,
                r,
                now,
            ),
    {
        let now = now_unix();
        self.snapshot(now)
    }
}

/// Relies on std::time::SystemTime::now for the wall-clock time, as whole
/// seconds since the Unix epoch; a clock set before the epoch reads as 0,
/// so the call never panics. Nothing is assumed of the value.
#[verifier::external_body]
fn now_unix() -> u64 {
    match std::time::SystemTime::now().duration_since(std::time::UNIX_EPOCH) {
        Ok(d) => d.as_secs(),
        Err(_) => 0,
    }
}

} // verus!
