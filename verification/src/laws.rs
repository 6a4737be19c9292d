//! The laws the conversion obeys, each stated over the same spec functions
//! that the executable functions' contracts are written against.

use vstd::prelude::*;

use crate::codec::decode_spec;
use crate::convert::{
    all_full_ok, convert_block_spec, convert_header_spec, full_tx_ok, project_full, project_hash,
    project_spec, ProofConverter,
};
use crate::proto::{ProtoHeaderView, ProtoTransactionView};
use crate::types::{DecodeError, Error};

verus! {

/// For heights zero and one, header conversion always succeeds and the
/// resulting header carries no proof.
pub proof fn lemma_low_height_no_proof<C: ProofConverter>(c: &C, h: ProtoHeaderView)
    requires
        h.height == 0 || h.height == 1,
    ensures
        convert_header_spec(c, h) matches Ok(out) && out.proof is None,
{
}

/// For heights above one with a present, accepted proof, the resulting
/// header carries exactly the converted proof.
pub proof fn lemma_high_height_proof<C: ProofConverter>(c: &C, h: ProtoHeaderView)
    requires
        h.height > 1,
        h.proof matches Some(raw) && c.accepts(raw),
    ensures
        convert_header_spec(c, h) matches Ok(out) && out.proof == Some(c.converted(h.proof->0)),
{
}

/// For heights above one, a missing or malformed proof fails the whole
/// header conversion; no partial header comes back.
pub proof fn lemma_high_height_bad_proof<C: ProofConverter>(c: &C, h: ProtoHeaderView)
    requires
        h.height > 1,
        !(h.proof matches Some(raw) && c.accepts(raw)),
    ensures
        convert_header_spec(c, h) == Err::<crate::rpc::BlockHeaderView, Error>(Error::Conversion),
{
}

/// Projecting as hash references never fails, keeps the length, and maps
/// each transaction, in order, to a reference holding its own hash.
pub proof fn lemma_project_hashes(ts: Seq<ProtoTransactionView>)
    ensures
        project_spec(ts, false) matches Ok(out) && out.len() == ts.len() && (forall|i: int|
            0 <= i < ts.len() ==> out[i] == project_hash(#[trigger] ts[i])),
{
    let out = ts.map_values(|t: ProtoTransactionView| project_hash(t));
    assert forall|i: int| 0 <= i < ts.len() implies out[i] == project_hash(ts[i]) by {
        assert(out[i] == project_hash(ts[i]));
    }
}

/// Projecting in full succeeds exactly when every transaction carries its
/// payload, and then maps each, in order, to its full form; one payload
/// missing fails the whole projection.
pub proof fn lemma_project_full(ts: Seq<ProtoTransactionView>, include_txs: bool)
    requires
        include_txs,
    ensures
        project_spec(ts, include_txs) is Ok <==> all_full_ok(ts),
        all_full_ok(ts) ==> (project_spec(ts, include_txs) matches Ok(out) && out.len()
            == ts.len() && (forall|i: int| 0 <= i < ts.len() ==> out[i] == project_full(
            #[trigger] ts[i],
        ))),
        (exists|i: int| 0 <= i < ts.len() && !full_tx_ok(#[trigger] ts[i])) ==> project_spec(
            ts,
            include_txs,
        ) == Err::<Seq<crate::rpc::BlockTransactionView>, Error>(Error::Conversion),
{
    if all_full_ok(ts) {
        let out = ts.map_values(|t: ProtoTransactionView| project_full(t));
        assert forall|i: int| 0 <= i < ts.len() implies out[i] == project_full(ts[i]) by {
            assert(out[i] == project_full(ts[i]));
        }
    }
}

/// A converted block's hash is, byte for byte, the hash the request
/// supplied, whatever the header and body hold.
pub proof fn lemma_hash_verbatim<C: ProofConverter>(
    c: &C,
    block: Seq<u8>,
    hash: Seq<u8>,
    include_txs: bool,
)
    ensures
        convert_block_spec(c, block, hash, include_txs) matches Ok(out) ==> out.hash == hash,
{
}

/// One failed full conversion fails the whole block conversion: when full
/// transactions are asked for and any decoded transaction lacks its
/// payload, no block is returned.
pub proof fn lemma_failed_tx_fails_block<C: ProofConverter>(
    c: &C,
    block: Seq<u8>,
    hash: Seq<u8>,
)
    requires
        decode_spec(block) matches Ok(pb) && !all_full_ok(pb.transactions),
    ensures
        convert_block_spec(c, block, hash, true) == Err::<crate::rpc::BlockView, Error>(
            Error::Conversion,
        ),
{
}

/// Malformed raw bytes fail the whole conversion with a decode error that
/// carries the low-level cause, whatever shape was asked for.
pub proof fn lemma_bad_bytes_decode_error<C: ProofConverter>(
    c: &C,
    block: Seq<u8>,
    hash: Seq<u8>,
    include_txs: bool,
    cause: DecodeError,
)
    requires
        decode_spec(block) == Err::<crate::proto::ProtoBlockView, DecodeError>(cause),
    ensures
        convert_block_spec(c, block, hash, include_txs) == Err::<crate::rpc::BlockView, Error>(
            Error::Decode(cause),
        ),
{
}

} // verus!
