use rollup_tui::block_metrics::BlockMetricsBuffer;
use rollup_tui::block_streamer::{
    advance_cursor, fetch_range, ingest_batch, prepare_batch, sort_by_bn, CATCH_UP_LIMIT,
};
use rollup_tui::types::{BlockInfo, RawBlock};

fn raw(number: Option<u64>, gas: u128, size: Option<u64>, ts: u64, txs: usize) -> RawBlock {
    RawBlock { number, gas_used: gas, size, timestamp: ts, tx_count: txs }
}

#[test]
fn catch_up_is_bounded() {
    // far behind: only the last CATCH_UP_LIMIT blocks are backfilled
    let r = fetch_range(None, 1000);
    let want: Vec<u64> = (991..=1000).collect();
    assert_eq!(r, want);
    assert_eq!(r.len() as u64, CATCH_UP_LIMIT);
}

#[test]
fn fetch_range_resumes_from_cursor() {
    let r = fetch_range(Some(995), 1000);
    let want: Vec<u64> = (996..=1000).collect();
    assert_eq!(r, want);
}

#[test]
fn fetch_range_near_genesis() {
    let r = fetch_range(None, 5);
    let want: Vec<u64> = (1..=5).collect();
    assert_eq!(r, want);
}

#[test]
fn fetch_range_with_no_new_blocks() {
    assert_eq!(fetch_range(Some(1000), 1000), Vec::<u64>::new());
    // a head behind the cursor fetches nothing rather than rewinding
    assert_eq!(fetch_range(Some(1000), 998), Vec::<u64>::new());
}

#[test]
fn cursor_holds_on_failure() {
    // a failed head query leaves the cursor untouched and raises no error
    assert_eq!(advance_cursor(Some(7), None), Some(7));
    assert_eq!(advance_cursor(None, None), None);
}

#[test]
fn cursor_follows_the_head() {
    assert_eq!(advance_cursor(Some(7), Some(9)), Some(9));
    assert_eq!(advance_cursor(None, Some(1000)), Some(1000));
    // the cursor is the queried head even when it moved backwards
    assert_eq!(advance_cursor(Some(12), Some(9)), Some(9));
}

#[test]
fn prepare_batch_drops_malformed_and_keeps_order() {
    let blocks = vec![
        raw(Some(3), 30, Some(300), 3, 1),
        raw(None, 10, Some(100), 1, 1),
        raw(Some(1), 10, None, 1, 2),
        raw(Some(2), u64::MAX as u128 + 1, None, 2, 1),
    ];
    let infos = prepare_batch(&blocks);
    assert_eq!(infos.len(), 2);
    assert_eq!(infos[0].bn, 3);
    assert_eq!(infos[1].bn, 1);
}

#[test]
fn sort_orders_by_block_number() {
    let mut v = vec![
        BlockInfo { bn: 5, gas: 50, size: None, timestamp: 5, txs: 1 },
        BlockInfo { bn: 1, gas: 10, size: Some(1), timestamp: 1, txs: 2 },
        BlockInfo { bn: 3, gas: 30, size: None, timestamp: 3, txs: 3 },
        BlockInfo { bn: 1, gas: 10, size: Some(1), timestamp: 1, txs: 2 },
    ];
    sort_by_bn(&mut v);
    let bns: Vec<u64> = v.iter().map(|b| b.bn).collect();
    assert_eq!(bns, vec![1, 1, 3, 5]);
    let gas: u64 = v.iter().map(|b| b.gas).sum();
    assert_eq!(gas, 100);
}

#[test]
fn batch_is_sorted_deduplicated_and_ingested() {
    let mut w = BlockMetricsBuffer::new(String::from("net"));
    let blocks = vec![
        raw(Some(3), 30, Some(300), 12, 3),
        raw(None, 99, Some(999), 11, 9),
        raw(Some(1), 10, Some(100), 10, 1),
        raw(Some(3), 30, Some(300), 12, 3),
        raw(Some(2), 20, None, 11, 2),
    ];
    ingest_batch(&mut w, blocks, 12);
    // the malformed block is gone and the duplicate counted once
    assert_eq!(w.buffer.len(), 3);
    let bns: Vec<u64> = (0..w.buffer.len()).map(|i| w.buffer[i].bn).collect();
    assert_eq!(bns, vec![1, 2, 3]);
    assert_eq!(w.total_gas, 60);
    assert_eq!(w.total_txs, 6);
    assert_eq!(w.total_data, 400);
    let s = w.snapshot(12);
    assert_eq!(s.block, 3);
}

#[test]
fn batch_ingestion_evicts_stale_records() {
    let mut w = BlockMetricsBuffer::new(String::from("net"));
    w.ingest(
        BlockInfo { bn: 1, gas: 10, size: None, timestamp: 0, txs: 1 },
        0,
    );
    let blocks = vec![raw(Some(2), 20, None, 70, 2)];
    ingest_batch(&mut w, blocks, 70);
    assert_eq!(w.buffer.len(), 1);
    assert_eq!(w.buffer[0].bn, 2);
    assert_eq!(w.total_gas, 20);
}

#[test]
fn empty_batch_changes_nothing() {
    let mut w = BlockMetricsBuffer::new(String::from("net"));
    w.ingest(
        BlockInfo { bn: 1, gas: 10, size: None, timestamp: 0, txs: 1 },
        0,
    );
    ingest_batch(&mut w, Vec::new(), 10);
    assert_eq!(w.buffer.len(), 1);
    assert_eq!(w.total_gas, 10);
}
