//! The proto side: the typed form of a wire-encoded block.
//!
//! A proto block is the source of truth for one conversion call. It is
//! consumed field by field: the body gives up its transaction list, the
//! header is converted, and the block is not read again afterwards.

use vstd::prelude::*;

use crate::types::{Address, Hash256};

verus! {

/// One transaction as stored: its hash, and optionally its full payload.
#[derive(Debug, PartialEq, Eq)]
pub struct ProtoTransaction {
    /// The transaction's identifying hash.
    pub tx_hash: Hash256,
    /// The full payload, where the stored form carries one.
    pub payload: Option<Vec<u8>>,
}

/// The mathematical shape of a stored transaction.
#[verifier::ext_equal]
pub struct ProtoTransactionView {
    pub tx_hash: Seq<u8>,
    pub payload: Option<Seq<u8>>,
}

impl View for ProtoTransaction {
    type V = ProtoTransactionView;

    open spec fn view(&self) -> ProtoTransactionView {
        ProtoTransactionView {
            tx_hash: self.tx_hash@,
            payload: match self.payload {
                Some(p) => Some(p@),
                None => None,
            },
        }
    }
}

/// The views of a list of stored transactions, in order.
pub open spec fn tx_views(s: Seq<ProtoTransaction>) -> Seq<ProtoTransactionView> {
    s.map_values(|t: ProtoTransaction| t@)
}

/// The header of a stored block.
#[derive(Debug, PartialEq, Eq)]
pub struct ProtoHeader {
    pub timestamp: u64,
    pub height: u64,
    pub prevhash: Hash256,
    pub state_root: Hash256,
    pub transactions_root: Hash256,
    pub receipts_root: Hash256,
    pub quota_used: u64,
    /// The raw consensus-proof bytes, where the stored form carries them.
    pub proof: Option<Vec<u8>>,
    pub proposer: Address,
}

/// The mathematical shape of a stored header.
#[verifier::ext_equal]
pub struct ProtoHeaderView {
    pub timestamp: u64,
    pub height: u64,
    pub prevhash: Seq<u8>,
    pub state_root: Seq<u8>,
    pub transactions_root: Seq<u8>,
    pub receipts_root: Seq<u8>,
    pub quota_used: u64,
    pub proof: Option<Seq<u8>>,
    pub proposer: Seq<u8>,
}

impl View for ProtoHeader {
    type V = ProtoHeaderView;

    open spec fn view(&self) -> ProtoHeaderView {
        ProtoHeaderView {
            timestamp: self.timestamp,
            height: self.height,
            prevhash: self.prevhash@,
            state_root: self.state_root@,
            transactions_root: self.transactions_root@,
            receipts_root: self.receipts_root@,
            quota_used: self.quota_used,
            proof: match self.proof {
                Some(p) => Some(p@),
                None => None,
            },
            proposer: self.proposer@,
        }
    }
}

/// The body of a stored block: its transactions, in order.
#[derive(Debug, PartialEq, Eq)]
pub struct ProtoBody {
    pub transactions: Vec<ProtoTransaction>,
}

impl View for ProtoBody {
    type V = Seq<ProtoTransactionView>;

    open spec fn view(&self) -> Seq<ProtoTransactionView> {
        tx_views(self.transactions@)
    }
}

/// A stored block: version, header, and body.
#[derive(Debug, PartialEq, Eq)]
pub struct ProtoBlock {
    pub version: u32,
    pub header: ProtoHeader,
    pub body: ProtoBody,
}

/// The mathematical shape of a stored block.
#[verifier::ext_equal]
pub struct ProtoBlockView {
    pub version: u32,
    pub header: ProtoHeaderView,
    pub transactions: Seq<ProtoTransactionView>,
}

impl View for ProtoBlock {
    type V = ProtoBlockView;

    open spec fn view(&self) -> ProtoBlockView {
        ProtoBlockView {
            version: self.version,
            header: self.header@,
            transactions: self.body@,
        }
    }
}

} // verus!
