//! The conversion pipeline: decode, convert the header, project the body.
//!
//! The proof converter is a supplied capability behind a single-function
//! interface, so the pipeline can be exercised with a substitute
//! implementation; every implementation states what it accepts and what it
//! returns, and is held to that.

use vstd::prelude::*;

use crate::codec::{decode_block, decode_spec};
use crate::proto::{
    tx_views, ProtoBlock, ProtoHeader, ProtoHeaderView, ProtoTransaction, ProtoTransactionView,
};
use crate::rpc::{
    block_tx_views, Block, BlockBody, BlockHeader, BlockHeaderView, BlockTransaction,
    BlockTransactionView, BlockView, FullTransaction, RpcBlock,
};
use crate::types::{Error, Hash256, Proof, U256};

verus! {

/// Converts raw consensus-proof bytes into their client-facing form.
///
/// An implementation names, as spec functions, which raw encodings it
/// accepts and what each accepted one converts to; its `convert` is bound
/// to both, and any failure it reports is a conversion failure.
pub trait ProofConverter {
    /// Whether these raw proof bytes are well formed for this converter.
    spec fn accepts(&self, raw: Seq<u8>) -> bool;

    /// The content of the converted proof, for accepted raw bytes.
    spec fn converted(&self, raw: Seq<u8>) -> Seq<u8>;

    /// Converts the raw bytes, failing exactly on those not accepted.
    fn convert(&self, raw: Vec<u8>) -> (r: Result<Proof, Error>)
        ensures
            r is Ok <==> self.accepts(raw@),
            r matches Ok(p) ==> p@ == self.converted(raw@),
            r matches Err(e) ==> e == Error::Conversion,
    ;
}

/// The plainest proof converter: it passes the raw bytes through unchanged,
/// rejecting only an empty proof, which no block can carry.
pub struct RawProofConverter;

impl ProofConverter for RawProofConverter {
    open spec fn accepts(&self, raw: Seq<u8>) -> bool {
        raw.len() > 0
    }

    open spec fn converted(&self, raw: Seq<u8>) -> Seq<u8> {
        raw
    }

    fn convert(&self, raw: Vec<u8>) -> (r: Result<Proof, Error>) {
        if raw.len() == 0 {
            Err(Error::Conversion)
        } else {
            Ok(Proof { content: raw })
        }
    }
}

/// Whether a height carries a consensus proof at all: the genesis block and
/// the one after it never do.
pub open spec fn proof_needed(height: u64) -> bool {
    height != 0 && height != 1
}

/// What converting a header yields: the structured header, or the first
/// conversion failure.
pub open spec fn convert_header_spec<C: ProofConverter>(c: &C, h: ProtoHeaderView) -> Result<
    BlockHeaderView,
    Error,
> {
    if proof_needed(h.height) && !(h.proof matches Some(raw) && c.accepts(raw)) {
        Err(Error::Conversion)
    } else {
        Ok(BlockHeaderView {
            timestamp: h.timestamp,
            prev_hash: h.prevhash,
            number: h.height as int,
            state_root: h.state_root,
            transactions_root: h.transactions_root,
            receipts_root: h.receipts_root,
            quota_used: h.quota_used as int,
            proof: if proof_needed(h.height) {
                Some(c.converted(h.proof->0))
            } else {
                None
            },
            proposer: h.proposer,
        })
    }
}

/// Whether a stored transaction can be handed out in full.
pub open spec fn full_tx_ok(t: ProtoTransactionView) -> bool {
    t.payload is Some
}

/// Whether every transaction of a list can be handed out in full.
pub open spec fn all_full_ok(ts: Seq<ProtoTransactionView>) -> bool {
    forall|i: int| 0 <= i < ts.len() ==> full_tx_ok(#[trigger] ts[i])
}

/// The hash-reference shape of a stored transaction.
pub open spec fn project_hash(t: ProtoTransactionView) -> BlockTransactionView {
    BlockTransactionView::Hash(t.tx_hash)
}

/// The full shape of a stored transaction.
pub open spec fn project_full(t: ProtoTransactionView) -> BlockTransactionView {
    BlockTransactionView::Full { hash: t.tx_hash, content: t.payload->0 }
}

/// What projecting a transaction list yields: hash references always
/// succeed; full conversion fails as soon as any transaction lacks its
/// payload, and then no list at all is returned.
pub open spec fn project_spec(ts: Seq<ProtoTransactionView>, include_txs: bool) -> Result<
    Seq<BlockTransactionView>,
    Error,
> {
    if !include_txs {
        Ok(ts.map_values(|t: ProtoTransactionView| project_hash(t)))
    } else if all_full_ok(ts) {
        Ok(ts.map_values(|t: ProtoTransactionView| project_full(t)))
    } else {
        Err(Error::Conversion)
    }
}

/// What one whole conversion call yields: the structured block, or the
/// first failure — decoding first, then the body, then the header, then
/// the supplied hash.
pub open spec fn convert_block_spec<C: ProofConverter>(
    c: &C,
    block: Seq<u8>,
    hash: Seq<u8>,
    include_txs: bool,
) -> Result<BlockView, Error> {
    match decode_spec(block) {
        Err(e) => Err(Error::Decode(e)),
        Ok(pb) => match project_spec(pb.transactions, include_txs) {
            Err(e) => Err(e),
            Ok(body) => match convert_header_spec(c, pb.header) {
                Err(e) => Err(e),
                Ok(header) => if hash.len() == 32 {
                    Ok(BlockView { version: pb.version, header, body, hash })
                } else {
                    Err(Error::Conversion)
                },
            },
        },
    }
}

impl BlockHeader {
    /// Builds the structured header from a stored one. The proof is absent
    /// for heights zero and one; for any other height the supplied
    /// converter runs on the stored proof bytes, and its failure — or a
    /// missing proof — aborts the conversion with nothing returned.
    pub fn try_from_proto<C: ProofConverter>(proto_header: ProtoHeader, converter: &C) -> (r:
        Result<BlockHeader, Error>)
        ensures
            (match convert_header_spec(converter, proto_header@) {
                Ok(hv) => r matches Ok(h) && h@ == hv,
                Err(e) => r matches Err(e2) && e2 == e,
            }),
    {
        let height = proto_header.height;
        let converted_proof: Option<Proof> = if height == 0 || height == 1 {
            None
        } else {
            let raw_proof = proto_header.proof;
            match raw_proof {
                None => {
                    return Err(Error::Conversion);
                }
                Some(raw) => match converter.convert(raw) {
                    Err(e) => {
                        return Err(e);
                    }
                    Ok(p) => Some(p),
                },
            }
        };
        let header = BlockHeader {
            timestamp: proto_header.timestamp,
            prev_hash: proto_header.prevhash,
            number: U256::from_u64(height),
            state_root: proto_header.state_root,
            transactions_root: proto_header.transactions_root,
            receipts_root: proto_header.receipts_root,
            quota_used: U256::from_u64(proto_header.quota_used),
            proof: converted_proof,
            proposer: proto_header.proposer,
        };
        Ok(header)
    }
}

/// Projects a stored transaction list into the requested shape, in order.
/// Hash references never fail; full conversion fails fast on the first
/// transaction without its payload, returning no list at all.
#[verifier::loop_isolation(false)]
pub fn project_transactions(transactions: Vec<ProtoTransaction>, include_txs: bool) -> (r: Result<
    Vec<BlockTransaction>,
    Error,
>)
    ensures
        (match project_spec(tx_views(transactions@), include_txs) {
            Ok(out) => r matches Ok(v) && block_tx_views(v@) == out,
            Err(e) => r matches Err(e2) && e2 == e,
        }),
{
    let ghost orig = tx_views(transactions@);
    let mut txs = transactions;
    let mut out: Vec<BlockTransaction> = Vec::new();
    let ghost mut k: int = 0;
    while txs.len() > 0
        invariant
            0 <= k <= orig.len(),
            tx_views(txs@) =~= orig.skip(k),
            !include_txs ==> block_tx_views(out@) =~= orig.take(k).map_values(
                |t: ProtoTransactionView| project_hash(t),
            ),
            include_txs ==> block_tx_views(out@) =~= orig.take(k).map_values(
                |t: ProtoTransactionView| project_full(t),
            ),
            include_txs ==> all_full_ok(orig.take(k)),
        decreases txs@.len(),
    {
        let ghost pre = txs@;
        let t = txs.remove(0);
        proof {
            assert(tx_views(pre)[0] == pre[0]@);
            assert(orig.skip(k)[0] == orig[k]);
            assert(t@ == orig[k]);
            assert forall|j: int| 0 <= j < txs@.len() implies tx_views(txs@)[j] == orig.skip(
                k + 1,
            )[j] by {
                assert(txs@[j] == pre[j + 1]);
                assert(tx_views(pre)[j + 1] == pre[j + 1]@);
                assert(orig.skip(k)[j + 1] == orig[k + 1 + j]);
                assert(orig.skip(k + 1)[j] == orig[k + 1 + j]);
            }
            assert(tx_views(txs@) =~= orig.skip(k + 1));
        }
        let projected: BlockTransaction = if include_txs {
            match t.payload {
                None => {
                    proof {
                        assert(!full_tx_ok(orig[k]));
                        assert(!all_full_ok(orig));
                    }
                    return Err(Error::Conversion);
                }
                Some(content) => BlockTransaction::Full(
                    FullTransaction { hash: t.tx_hash, content },
                ),
            }
        } else {
            BlockTransaction::Hash(t.tx_hash)
        };
        proof {
            assert(block_tx_views(out@.push(projected)) =~= block_tx_views(out@).push(
                projected@,
            ));
            assert(orig.take(k + 1) =~= orig.take(k).push(orig[k]));
            if include_txs {
                assert(orig.take(k + 1).map_values(|t2: ProtoTransactionView| project_full(t2))
                    =~= orig.take(k).map_values(|t2: ProtoTransactionView| project_full(t2)).push(
                    project_full(orig[k]),
                ));
                assert(projected@ == project_full(orig[k]));
            } else {
                assert(orig.take(k + 1).map_values(|t2: ProtoTransactionView| project_hash(t2))
                    =~= orig.take(k).map_values(|t2: ProtoTransactionView| project_hash(t2)).push(
                    project_hash(orig[k]),
                ));
                assert(projected@ == project_hash(orig[k]));
            }
        }
        out.push(projected);
        proof {
            k = k + 1;
        }
    }
    proof {
        assert(orig.skip(k).len() == 0);
        assert(k == orig.len());
        assert(orig.take(k) =~= orig);
    }
    Ok(out)
}

impl Block {
    /// Runs one whole conversion: decodes the request's raw bytes, projects
    /// the transactions into the requested shape, converts the header, and
    /// assembles the block around the request's own hash — or returns the
    /// first error, with no partial block ever built.
    pub fn try_from_rpc_block<C: ProofConverter>(rpc_block: RpcBlock, converter: &C) -> (r:
        Result<Block, Error>)
        ensures
            (match convert_block_spec(
                converter,
                rpc_block.block@,
                rpc_block.hash@,
                rpc_block.include_txs,
            ) {
                Ok(bv) => r matches Ok(b) && b@ == bv,
                Err(e) => r matches Err(e2) && e2 == e,
            }),
    {
        let blk = match decode_block(&rpc_block.block) {
            Err(e) => {
                return Err(Error::Decode(e));
            }
            Ok(blk) => blk,
        };
        let version = blk.version;
        let transactions = match project_transactions(blk.body.transactions, rpc_block.include_txs)
            {
            Err(e) => {
                return Err(e);
            }
            Ok(v) => v,
        };
        let header = match BlockHeader::try_from_proto(blk.header, converter) {
            Err(e) => {
                return Err(e);
            }
            Ok(h) => h,
        };
        let hash = match Hash256::from_bytes(rpc_block.hash) {
            None => {
                return Err(Error::Conversion);
            }
            Some(h) => h,
        };
        Ok(Block { version, header, body: BlockBody { transactions }, hash })
    }
}

} // verus!
