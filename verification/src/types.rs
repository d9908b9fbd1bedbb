use vstd::prelude::*;

verus! {

/// One validated block's contribution to the rolling window.
#[derive(Clone, Copy, Debug)]
pub struct BlockInfo {
    pub bn: u64,
    pub gas: u64,
    pub size: Option<u64>,
    pub timestamp: u64,
    pub txs: usize,
}

/// A block as fetched from a node, before validation: the block number may
/// be missing and the reported gas value may not fit in 64 bits.
#[derive(Clone, Copy, Debug)]
pub struct RawBlock {
    pub number: Option<u64>,
    pub gas_used: u128,
    pub size: Option<u64>,
    pub timestamp: u64,
    pub tx_count: usize,
}

/// A point-in-time aggregate over the current window.
///
/// The per-second rates are the three totals divided by `elapsed_secs`, the
/// gap between the sampling instant and the oldest retained record. An
/// `elapsed_secs` of zero means the rates are reported as zero; no division
/// happens here, so an empty window never divides by zero.
#[derive(Clone, Debug)]
pub struct NetworkMetrics {
    pub network: String,
    pub block: u64,
    pub total_gas: u64,
    pub total_txs: usize,
    pub total_data: u64,
    pub elapsed_secs: u64,
}

/// A log line attributed to one network.
#[derive(Clone, Debug)]
pub struct Log {
    pub network: String,
    pub message: String,
}

/// What a driver publishes on its outbound channel.
#[derive(Clone, Debug)]
pub enum BlockMessage {
    UpdateNetwork(NetworkMetrics),
    Log(Log),
}

/// A fetched block is kept iff it has a block number and its gas value fits
/// in 64 bits.
pub open spec fn valid_block(b: RawBlock) -> bool {
    b.number is Some && b.gas_used <= u64::MAX as u128
}

/// The window record a valid fetched block turns into.
pub open spec fn to_block_info(b: RawBlock) -> BlockInfo
    recommends
        valid_block(b),
{
    BlockInfo {
        bn: b.number->0,
        gas: b.gas_used as u64,
        size: b.size,
        timestamp: b.timestamp,
        txs: b.tx_count,
    }
}

impl BlockInfo {
    /// Validates a fetched block: a block without a number, or whose gas
    /// value does not fit in 64 bits, is dropped.
    pub fn try_from_block(block: &RawBlock) -> (r: Option<BlockInfo>)
        ensures
            valid_block(*block) ==> r == Some(to_block_info(*block)),
            !valid_block(*block) ==> r is None,
    {
        match block.number {
            Some(bn) if block.gas_used <= u64::MAX as u128 => Some(
                BlockInfo {
                    bn,
                    gas: block.gas_used as u64,
                    size: block.size,
                    timestamp: block.timestamp,
                    txs: block.tx_count,
                },
            ),
            _ => None,
        }
    }
}

} // verus!
