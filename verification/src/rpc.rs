//! The client-facing side: the structured block returned to a caller.

use vstd::prelude::*;

use crate::types::{Address, Hash256, Proof, U256};

verus! {

/// The request for one conversion: the raw block bytes, the externally
/// supplied block hash, and the shape the caller wants the body in.
#[derive(Debug)]
pub struct RpcBlock {
    /// The wire-encoded block, as chain storage handed it out.
    pub block: Vec<u8>,
    /// Whether the body should carry full transactions or hash references.
    pub include_txs: bool,
    /// The block hash as supplied by the caller; copied verbatim into the
    /// result, never recomputed.
    pub hash: Vec<u8>,
}

/// The structured block header handed back to a caller.
#[derive(Debug, PartialEq, Eq)]
pub struct BlockHeader {
    pub timestamp: u64,
    pub prev_hash: Hash256,
    /// The block height, widened to the canonical 256-bit form.
    pub number: U256,
    pub state_root: Hash256,
    pub transactions_root: Hash256,
    pub receipts_root: Hash256,
    /// The quota consumed in the block, widened to the canonical form.
    pub quota_used: U256,
    /// The consensus proof; present exactly when the height calls for one.
    pub proof: Option<Proof>,
    pub proposer: Address,
}

/// The mathematical shape of a structured header.
#[verifier::ext_equal]
pub struct BlockHeaderView {
    pub timestamp: u64,
    pub prev_hash: Seq<u8>,
    pub number: int,
    pub state_root: Seq<u8>,
    pub transactions_root: Seq<u8>,
    pub receipts_root: Seq<u8>,
    pub quota_used: int,
    pub proof: Option<Seq<u8>>,
    pub proposer: Seq<u8>,
}

impl View for BlockHeader {
    type V = BlockHeaderView;

    open spec fn view(&self) -> BlockHeaderView {
        BlockHeaderView {
            timestamp: self.timestamp,
            prev_hash: self.prev_hash@,
            number: self.number@,
            state_root: self.state_root@,
            transactions_root: self.transactions_root@,
            receipts_root: self.receipts_root@,
            quota_used: self.quota_used@,
            proof: match self.proof {
                Some(p) => Some(p@),
                None => None,
            },
            proposer: self.proposer@,
        }
    }
}

/// A full transaction object: the identifying hash and the payload.
#[derive(Debug, PartialEq, Eq)]
pub struct FullTransaction {
    pub hash: Hash256,
    pub content: Vec<u8>,
}

/// One element of the returned body: a full transaction or a hash reference.
#[derive(Debug, PartialEq, Eq)]
pub enum BlockTransaction {
    /// The complete transaction payload.
    Full(FullTransaction),
    /// Only the transaction's identifying hash.
    Hash(Hash256),
}

/// The mathematical shape of one element of the returned body.
#[verifier::ext_equal]
pub enum BlockTransactionView {
    Full { hash: Seq<u8>, content: Seq<u8> },
    Hash(Seq<u8>),
}

impl View for BlockTransaction {
    type V = BlockTransactionView;

    open spec fn view(&self) -> BlockTransactionView {
        match self {
            BlockTransaction::Full(t) => BlockTransactionView::Full {
                hash: t.hash@,
                content: t.content@,
            },
            BlockTransaction::Hash(h) => BlockTransactionView::Hash(h@),
        }
    }
}

/// The views of a returned body, in order.
pub open spec fn block_tx_views(s: Seq<BlockTransaction>) -> Seq<BlockTransactionView> {
    s.map_values(|t: BlockTransaction| t@)
}

/// The body of a returned block: its transactions, in order.
#[derive(Debug, PartialEq, Eq)]
pub struct BlockBody {
    pub transactions: Vec<BlockTransaction>,
}

impl View for BlockBody {
    type V = Seq<BlockTransactionView>;

    open spec fn view(&self) -> Seq<BlockTransactionView> {
        block_tx_views(self.transactions@)
    }
}

/// The structured block handed back to a caller.
#[derive(Debug, PartialEq, Eq)]
pub struct Block {
    pub version: u32,
    pub header: BlockHeader,
    pub body: BlockBody,
    /// Byte-for-byte the hash the request supplied.
    pub hash: Hash256,
}

/// The mathematical shape of a returned block.
#[verifier::ext_equal]
pub struct BlockView {
    pub version: u32,
    pub header: BlockHeaderView,
    pub body: Seq<BlockTransactionView>,
    pub hash: Seq<u8>,
}

impl View for Block {
    type V = BlockView;

    open spec fn view(&self) -> BlockView {
        BlockView {
            version: self.version,
            header: self.header@,
            body: self.body@,
            hash: self.hash@,
        }
    }
}

} // verus!
