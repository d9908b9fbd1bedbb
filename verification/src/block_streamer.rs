use vstd::prelude::*;

use crate::block_metrics::{
    data_of, evict_model, has_block, spec_ingest, sum_data, sum_gas, sum_txs,
    BlockMetricsBuffer,
};
use crate::block_metrics::{lemma_evict_sums_le, lemma_sum_push, lemma_sums_nonneg};
use crate::types::{to_block_info, valid_block, BlockInfo, RawBlock};

verus! {

/// How many blocks a single poll tick will backfill at most, bounding the
/// catch-up burst after a stall or restart.
pub const CATCH_UP_LIMIT: u64 = 10;

/// The fixed poll cadence, in milliseconds.
pub const POLL_INTERVAL_MS: u64 = 750;

/// The cursor after one tick: the queried head when the head-number query
/// succeeded, the previous cursor unchanged when it failed. Resumption on
/// the next scheduled tick is the entire retry strategy: no immediate
/// retry, no backoff, and no error surfaces.
pub fn advance_cursor(previous: Option<u64>, head: Option<u64>) -> (r: Option<u64>)
    ensures
        head is Some ==> r == head,
        head is None ==> r == previous,
{
    match head {
        Some(h) => Some(h),
        None => previous,
    }
}

/// The first block number a tick may fetch, minus one: the later of the
/// previous cursor (0 when bootstrapping) and `head - CATCH_UP_LIMIT`.
pub open spec fn spec_fetch_base(previous: Option<u64>, head: u64) -> u64 {
    let prev: u64 = if previous is Some {
        previous->0
    } else {
        0
    };
    let floor: u64 = if head >= CATCH_UP_LIMIT {
        (head - CATCH_UP_LIMIT) as u64
    } else {
        0
    };
    if prev >= floor {
        prev
    } else {
        floor
    }
}

/// The block numbers one tick fetches, ascending: the inclusive range
/// `max(previous, head - CATCH_UP_LIMIT) + 1 ..= head`, so at most
/// `CATCH_UP_LIMIT` blocks are backfilled however far behind the cursor
/// fell, and a head at or behind the cursor fetches nothing.
pub fn fetch_range(previous: Option<u64>, head: u64) -> (r: Vec<u64>)
    ensures
        ({
            let base = spec_fetch_base(previous, head);
            &&& r@.len() == (if base >= head {
                0int
            } else {
                head - base
            })
            &&& forall|i: int| 0 <= i < r@.len() ==> r@[i] == base + 1 + i
        }),
        r@.len() <= CATCH_UP_LIMIT,
{
    let prev: u64 = match previous {
        Some(p) => p,
        None => 0,
    };
    let floor: u64 = if head >= CATCH_UP_LIMIT {
        head - CATCH_UP_LIMIT
    } else {
        0
    };
    let base: u64 = if prev >= floor {
        prev
    } else {
        floor
    };
    let mut r: Vec<u64> = Vec::new();
    let mut n: u64 = base;
    while n < head
        invariant
            base == spec_fetch_base(previous, head),
            base <= n,
            n <= head || n == base,
            r@.len() == n - base,
            forall|i: int| 0 <= i < r@.len() ==> r@[i] == base + 1 + i,
        decreases head - n,
    {
        n = n + 1;
        r.push(n);
    }
    r
}

/// Whether a fetched block is kept, as a predicate value.
pub open spec fn valid_pred() -> spec_fn(RawBlock) -> bool {
    |b: RawBlock| valid_block(b)
}

/// Conversion of a kept block to its window record, as a function value.
pub open spec fn conv_fn() -> spec_fn(RawBlock) -> BlockInfo {
    |b: RawBlock| to_block_info(b)
}

/// The records a fetched batch contributes, in batch order: each valid
/// block converted, blocks without a number or with an implausible gas
/// value dropped.
pub open spec fn valid_infos(batch: Seq<RawBlock>) -> Seq<BlockInfo> {
    batch.filter(valid_pred()).map_values(conv_fn())
}

proof fn lemma_valid_infos_snoc(batch: Seq<RawBlock>, b: RawBlock)
    ensures
        valid_block(b) ==> valid_infos(batch.push(b)) == valid_infos(batch).push(
            to_block_info(b),
        ),
        !valid_block(b) ==> valid_infos(batch.push(b)) == valid_infos(batch),
{
    reveal(Seq::filter);
    let pred = valid_pred();
    let conv = conv_fn();
    assert(batch.push(b).drop_last() =~= batch);
    assert(batch.push(b).last() == b);
    if valid_block(b) {
        assert(batch.push(b).filter(pred) == batch.filter(pred).push(b));
        assert(batch.filter(pred).push(b).map_values(conv) =~= batch.filter(pred).map_values(
            conv,
        ).push(to_block_info(b)));
    } else {
        assert(batch.push(b).filter(pred) == batch.filter(pred));
    }
}

/// Validates a fetched batch, keeping batch order: malformed blocks are
/// silently dropped, never an error.
pub fn prepare_batch(blocks: &Vec<RawBlock>) -> (r: Vec<BlockInfo>)
    ensures
        r@ == valid_infos(blocks@),
{
    let mut r: Vec<BlockInfo> = Vec::new();
    let mut i: usize = 0;
    proof {
        assert(blocks@.subrange(0, 0) =~= Seq::<RawBlock>::empty());
        reveal(Seq::filter);
        assert(Seq::<RawBlock>::empty().filter(valid_pred()) =~= Seq::<RawBlock>::empty());
        assert(r@ =~= valid_infos(blocks@.subrange(0, 0)));
    }
    while i < blocks.len()
        invariant
            i <= blocks@.len(),
            r@ == valid_infos(blocks@.subrange(0, i as int)),
        decreases blocks@.len() - i,
    {
        let ghost prefix = blocks@.subrange(0, i as int);
        if let Some(info) = BlockInfo::try_from_block(&blocks[i]) {
            r.push(info);
        }
        i = i + 1;
        proof {
            let b = blocks@[i - 1];
            assert(blocks@.subrange(0, i as int) =~= prefix.push(b));
            lemma_valid_infos_snoc(prefix, b);
            assert(r@ == valid_infos(blocks@.subrange(0, i as int)));
        }
    }
    proof {
        assert(blocks@.subrange(0, blocks@.len() as int) =~= blocks@);
    }
    r
}

/// Records in nondecreasing block-number order.
pub open spec fn sorted_by_bn(s: Seq<BlockInfo>) -> bool {
    forall|i: int, j: int| 0 <= i <= j < s.len() ==> s[i].bn <= s[j].bn
}

proof fn lemma_sum_update(s: Seq<BlockInfo>, i: int, x: BlockInfo)
    requires
        0 <= i < s.len(),
    ensures
        sum_gas(s.update(i, x)) == sum_gas(s) + x.gas - s[i].gas,
        sum_txs(s.update(i, x)) == sum_txs(s) + x.txs - s[i].txs,
        sum_data(s.update(i, x)) == sum_data(s) + data_of(x) - data_of(s[i]),
    decreases s.len(),
{
    if i == 0 {
        assert(s.update(0, x)[0] == x);
        assert(s.update(0, x).drop_first() =~= s.drop_first());
    } else {
        assert(s.update(i, x)[0] == s[0]);
        assert(s.update(i, x).drop_first() =~= s.drop_first().update(i - 1, x));
        lemma_sum_update(s.drop_first(), i - 1, x);
    }
}

/// Sorts a batch by block number before ingestion (fetch completion order
/// is not guaranteed), so the window always observes a consistent arrival
/// order. The records themselves are only rearranged.
pub fn sort_by_bn(v: &mut Vec<BlockInfo>)
    ensures
        sorted_by_bn(final(v)@),
        final(v)@.to_multiset() == old(v)@.to_multiset(),
        final(v)@.len() == old(v)@.len(),
        sum_gas(final(v)@) == sum_gas(old(v)@),
        sum_txs(final(v)@) == sum_txs(old(v)@),
        sum_data(final(v)@) == sum_data(old(v)@),
{
    broadcast use vstd::seq_lib::group_to_multiset_ensures;
    broadcast use vstd::multiset::group_multiset_axioms;

    let ghost orig = v@;
    let mut i: usize = 0;
    while i < v.len()
        invariant
            i <= v@.len(),
            v@.len() == orig.len(),
            v@.to_multiset() == orig.to_multiset(),
            sum_gas(v@) == sum_gas(orig),
            sum_txs(v@) == sum_txs(orig),
            sum_data(v@) == sum_data(orig),
            forall|a: int, b: int| 0 <= a <= b < i ==> v@[a].bn <= v@[b].bn,
            forall|a: int, b: int| 0 <= a < i <= b < v@.len() ==> v@[a].bn <= v@[b].bn,
        decreases v@.len() - i,
    {
        let ghost vs = v@;
        let mut m: usize = i;
        let mut j: usize = i + 1;
        while j < v.len()
            invariant
                v@ == vs,
                i <= m < j,
                j <= v@.len(),
                forall|k: int| i <= k < j ==> v@[m as int].bn <= v@[k].bn,
            decreases v@.len() - j,
        {
            if v[j].bn < v[m].bn {
                m = j;
            }
            j = j + 1;
        }
        let low = v[m];
        let other = v[i];
        v.set(i, low);
        v.set(m, other);
        proof {
            let s1 = vs.update(i as int, low);
            let swapped = s1.update(m as int, other);
            assert(v@ =~= swapped);
            assert(vs[i as int] == other && vs[m as int] == low);
            assert(vs.contains(vs[i as int]));
            assert(vs.contains(vs[m as int]));
            vstd::seq_lib::to_multiset_update(vs, i as int, low);
            assert(s1.to_multiset() == vs.to_multiset().insert(low).remove(vs[i as int]));
            assert(s1[m as int] == (if m == i {
                low
            } else {
                vs[m as int]
            }));
            vstd::seq_lib::to_multiset_update(s1, m as int, other);
            assert(swapped.to_multiset() == s1.to_multiset().insert(other).remove(
                s1[m as int],
            ));
            assert(s1[m as int] == low);
            let ms = vs.to_multiset();
            vstd::seq_lib::to_multiset_contains(vs, other);
            vstd::seq_lib::to_multiset_contains(vs, low);
            assert(ms.count(other) > 0 && ms.count(low) > 0);
            assert forall|x: BlockInfo| swapped.to_multiset().count(x) == ms.count(x) by {
                assert(swapped.to_multiset().count(x) == ms.insert(low).remove(other).insert(
                    other,
                ).remove(low).count(x));
            }
            assert(v@.to_multiset() =~= vs.to_multiset());
            lemma_sum_update(vs, i as int, low);
            lemma_sum_update(vs.update(i as int, low), m as int, other);
            assert forall|a: int, b: int| 0 <= a <= b < i + 1 implies
                v@[a].bn <= v@[b].bn by {
                if b == i {
                    if a < i {
                        assert(vs[a].bn <= vs[m as int].bn);
                    }
                }
            }
            assert forall|a: int, b: int| 0 <= a < i + 1 <= b < v@.len() implies
                v@[a].bn <= v@[b].bn by {
                if a == i {
                    if b == m {
                        assert(v@[b] == vs[i as int]);
                        assert(vs[m as int].bn <= vs[i as int].bn);
                    } else {
                        assert(v@[b] == vs[b]);
                        assert(vs[m as int].bn <= vs[b].bn);
                    }
                } else {
                    if b == m {
                        assert(v@[b] == vs[i as int]);
                        assert(vs[a].bn <= vs[i as int].bn);
                    } else {
                        assert(vs[a].bn <= vs[b].bn);
                    }
                }
            }
        }
        i = i + 1;
    }
}

/// The window after a batch is ingested in order at time `now`.
pub open spec fn ingest_seq(
    window: Seq<BlockInfo>,
    batch: Seq<BlockInfo>,
    now: u64,
) -> Seq<BlockInfo>
    decreases batch.len(),
{
    if batch.len() == 0 {
        window
    } else {
        ingest_seq(spec_ingest(window, batch[0], now), batch.drop_first(), now)
    }
}

proof fn lemma_ingest_seq_snoc(window: Seq<BlockInfo>, batch: Seq<BlockInfo>, x: BlockInfo, now: u64)
    ensures
        ingest_seq(window, batch.push(x), now) == spec_ingest(
            ingest_seq(window, batch, now),
            x,
            now,
        ),
    decreases batch.len(),
{
    if batch.len() == 0 {
        assert(batch.push(x)[0] == x);
        assert(batch.push(x).drop_first() =~= Seq::<BlockInfo>::empty());
        assert(ingest_seq(spec_ingest(window, x, now), Seq::<BlockInfo>::empty(), now)
            == spec_ingest(window, x, now));
        assert(ingest_seq(window, batch, now) == window);
    } else {
        assert(batch.push(x)[0] == batch[0]);
        assert(batch.push(x).drop_first() =~= batch.drop_first().push(x));
        lemma_ingest_seq_snoc(spec_ingest(window, batch[0], now), batch.drop_first(), x, now);
        assert(ingest_seq(window, batch.push(x), now) == ingest_seq(
            spec_ingest(window, batch[0], now),
            batch.drop_first().push(x),
            now,
        ));
        assert(ingest_seq(window, batch, now) == ingest_seq(
            spec_ingest(window, batch[0], now),
            batch.drop_first(),
            now,
        ));
    }
}

/// One tick's ingestion: validates the fetched batch, sorts the usable
/// records by block number, and ingests them in that order at time `now`.
/// Malformed blocks are dropped and duplicates are no-ops, so the window
/// ends up at the fold of ingestion over some number-sorted arrangement of
/// exactly the batch's valid records.
pub fn ingest_batch(metrics: &mut BlockMetricsBuffer, blocks: Vec<RawBlock>, now: u64)
    requires
        old(metrics).wf(),
        sum_gas(old(metrics).buffer@) + sum_gas(valid_infos(blocks@)) <= u64::MAX,
        sum_txs(old(metrics).buffer@) + sum_txs(valid_infos(blocks@)) <= usize::MAX,
        sum_data(old(metrics).buffer@) + sum_data(valid_infos(blocks@)) <= u64::MAX,
    ensures
        final(metrics).wf(),
        final(metrics).network@ == old(metrics).network@,
        exists|s: Seq<BlockInfo>|
            {
                &&& final(metrics).buffer@ == #[trigger] ingest_seq(old(metrics).buffer@, s, now)
                &&& s.to_multiset() == valid_infos(blocks@).to_multiset()
                &&& sorted_by_bn(s)
            },
{
    let mut infos = prepare_batch(&blocks);
    sort_by_bn(&mut infos);
    let ghost batch = infos@;
    let ghost w0 = metrics.buffer@;
    let mut i: usize = 0;
    proof {
        assert(batch.subrange(0, 0) =~= Seq::<BlockInfo>::empty());
        assert(batch.subrange(0, batch.len() as int) =~= batch);
    }
    while i < infos.len()
        invariant
            i <= batch.len(),
            infos@ == batch,
            metrics.wf(),
            metrics.network@ == old(metrics).network@,
            metrics.buffer@ == ingest_seq(w0, batch.subrange(0, i as int), now),
            sum_gas(metrics.buffer@) + sum_gas(batch.subrange(i as int, batch.len() as int))
                <= u64::MAX,
            sum_txs(metrics.buffer@) + sum_txs(batch.subrange(i as int, batch.len() as int))
                <= usize::MAX,
            sum_data(metrics.buffer@) + sum_data(batch.subrange(i as int, batch.len() as int))
                <= u64::MAX,
        decreases batch.len() - i,
    {
        let ghost pre = metrics.buffer@;
        let ghost suffix = batch.subrange(i as int, batch.len() as int);
        let b = infos[i];
        proof {
            assert(suffix[0] == b);
            assert(suffix.drop_first() =~= batch.subrange(i + 1, batch.len() as int));
            lemma_sums_nonneg(suffix.drop_first());
        }
        metrics.ingest(b, now);
        i = i + 1;
        proof {
            assert(batch.subrange(0, i as int) =~= batch.subrange(0, i - 1).push(b));
            lemma_ingest_seq_snoc(w0, batch.subrange(0, i - 1), b, now);
            if !has_block(pre, b.bn) {
                lemma_evict_sums_le(pre, now);
                lemma_sum_push(evict_model(pre, now), b);
            }
        }
    }
    proof {
        assert(metrics.buffer@ == ingest_seq(w0, batch, now));
    }
}

} // verus!
