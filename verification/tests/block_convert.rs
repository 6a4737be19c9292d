use jsonrpc_proto::codec::encode_block;
use jsonrpc_proto::convert::{ProofConverter, RawProofConverter};
use jsonrpc_proto::proto::{ProtoBlock, ProtoBody, ProtoHeader, ProtoTransaction};
use jsonrpc_proto::rpc::{Block, BlockHeader, BlockTransaction, RpcBlock};
use jsonrpc_proto::types::{Address, DecodeError, Error, Hash256, U256};

fn hash_of(fill: u8) -> Hash256 {
    Hash256::from_bytes(vec![fill; 32]).unwrap()
}

fn addr_of(fill: u8) -> Address {
    Address::from_bytes(vec![fill; 20]).unwrap()
}

fn header_of(height: u64, proof: Option<Vec<u8>>) -> ProtoHeader {
    ProtoHeader {
        timestamp: 1234,
        height,
        prevhash: hash_of(11),
        state_root: hash_of(12),
        transactions_root: hash_of(13),
        receipts_root: hash_of(14),
        quota_used: 55_555,
        proof,
        proposer: addr_of(15),
    }
}

fn request_of(
    height: u64,
    proof: Option<Vec<u8>>,
    txs: Vec<ProtoTransaction>,
    include_txs: bool,
    hash: Vec<u8>,
) -> RpcBlock {
    let block = ProtoBlock {
        version: 3,
        header: header_of(height, proof),
        body: ProtoBody { transactions: txs },
    };
    RpcBlock { block: encode_block(&block), include_txs, hash }
}

#[test]
fn genesis_hash_references() {
    // height 0, two transactions asked for as hash references
    let txs = vec![
        ProtoTransaction { tx_hash: hash_of(1), payload: Some(vec![9]) },
        ProtoTransaction { tx_hash: hash_of(2), payload: None },
    ];
    let req = request_of(0, None, txs, false, vec![0xCC; 32]);
    let block = Block::try_from_rpc_block(req, &RawProofConverter).unwrap();
    assert_eq!(block.version, 3);
    assert_eq!(block.header.proof, None);
    assert_eq!(
        block.body.transactions,
        vec![BlockTransaction::Hash(hash_of(1)), BlockTransaction::Hash(hash_of(2))]
    );
    // the hash is the request's own, byte for byte
    assert_eq!(block.hash, Hash256::from_bytes(vec![0xCC; 32]).unwrap());
}

#[test]
fn height_one_no_proof() {
    let req = request_of(1, Some(vec![1, 2, 3]), vec![], false, vec![0; 32]);
    let block = Block::try_from_rpc_block(req, &RawProofConverter).unwrap();
    assert_eq!(block.header.proof, None);
}

#[test]
fn high_height_proof_converted() {
    let req = request_of(6, Some(vec![0xDE, 0xAD]), vec![], false, vec![0; 32]);
    let block = Block::try_from_rpc_block(req, &RawProofConverter).unwrap();
    let proof = block.header.proof.expect("proof must be present above height one");
    assert_eq!(proof.content, vec![0xDE, 0xAD]);
}

#[test]
fn high_height_missing_proof_fails() {
    let req = request_of(2, None, vec![], false, vec![0; 32]);
    let r = Block::try_from_rpc_block(req, &RawProofConverter);
    assert_eq!(r, Err(Error::Conversion));
}

#[test]
fn high_height_malformed_proof_fails() {
    // the raw converter rejects an empty proof
    let req = request_of(9, Some(vec![]), vec![], false, vec![0; 32]);
    let r = Block::try_from_rpc_block(req, &RawProofConverter);
    assert_eq!(r, Err(Error::Conversion));
}

#[test]
fn full_transactions_returned() {
    let txs = vec![
        ProtoTransaction { tx_hash: hash_of(1), payload: Some(vec![7, 8]) },
        ProtoTransaction { tx_hash: hash_of(2), payload: Some(vec![9]) },
    ];
    let req = request_of(5, Some(vec![0xAB]), txs, true, vec![1; 32]);
    let block = Block::try_from_rpc_block(req, &RawProofConverter).unwrap();
    match &block.body.transactions[0] {
        BlockTransaction::Full(t) => {
            assert_eq!(t.hash, hash_of(1));
            assert_eq!(t.content, vec![7, 8]);
        }
        other => panic!("expected a full transaction, got {:?}", other),
    }
    match &block.body.transactions[1] {
        BlockTransaction::Full(t) => {
            assert_eq!(t.hash, hash_of(2));
            assert_eq!(t.content, vec![9]);
        }
        other => panic!("expected a full transaction, got {:?}", other),
    }
}

#[test]
fn one_failed_full_conversion_fails_all() {
    // height 5, a valid proof, one transaction that cannot convert in full
    let txs = vec![ProtoTransaction { tx_hash: hash_of(1), payload: None }];
    let req = request_of(5, Some(vec![0x50]), txs, true, vec![1; 32]);
    let r = Block::try_from_rpc_block(req, &RawProofConverter);
    assert_eq!(r, Err(Error::Conversion));
}

#[test]
fn missing_payload_fine_as_reference() {
    let txs = vec![ProtoTransaction { tx_hash: hash_of(3), payload: None }];
    let req = request_of(5, Some(vec![0x50]), txs, false, vec![1; 32]);
    let block = Block::try_from_rpc_block(req, &RawProofConverter).unwrap();
    assert_eq!(block.body.transactions, vec![BlockTransaction::Hash(hash_of(3))]);
}

#[test]
fn header_fields_mapped() {
    let req = request_of(5, Some(vec![0x50]), vec![], false, vec![2; 32]);
    let block = Block::try_from_rpc_block(req, &RawProofConverter).unwrap();
    let h = block.header;
    assert_eq!(h.timestamp, 1234);
    assert_eq!(h.number, U256::from_u64(5));
    assert_eq!(h.quota_used, U256::from_u64(55_555));
    assert_eq!(h.prev_hash, hash_of(11));
    assert_eq!(h.state_root, hash_of(12));
    assert_eq!(h.transactions_root, hash_of(13));
    assert_eq!(h.receipts_root, hash_of(14));
    assert_eq!(h.proposer, addr_of(15));
}

#[test]
fn malformed_bytes_decode_error() {
    let req = RpcBlock { block: vec![1, 2, 3], include_txs: false, hash: vec![0; 32] };
    let r = Block::try_from_rpc_block(req, &RawProofConverter);
    assert_eq!(r, Err(Error::Decode(DecodeError::Truncated)));
}

#[test]
fn wrong_length_request_hash_fails() {
    let req = request_of(0, None, vec![], false, vec![0xCC; 31]);
    let r = Block::try_from_rpc_block(req, &RawProofConverter);
    assert_eq!(r, Err(Error::Conversion));
}

#[test]
fn decode_error_wins_over_hash() {
    // both the bytes and the hash are bad: the decode error is reported
    let req = RpcBlock { block: vec![], include_txs: true, hash: vec![1] };
    let r = Block::try_from_rpc_block(req, &RawProofConverter);
    assert_eq!(r, Err(Error::Decode(DecodeError::Truncated)));
}

#[test]
fn header_conversion_directly() {
    let r = BlockHeader::try_from_proto(header_of(0, None), &RawProofConverter).unwrap();
    assert_eq!(r.proof, None);
    assert_eq!(r.number, U256::from_u64(0));
    let r2 = BlockHeader::try_from_proto(header_of(7, Some(vec![4, 2])), &RawProofConverter)
        .unwrap();
    assert_eq!(r2.proof.unwrap().content, vec![4, 2]);
}

#[test]
fn raw_converter_passes_bytes_through() {
    let p = RawProofConverter.convert(vec![1, 2, 3]).unwrap();
    assert_eq!(p.content, vec![1, 2, 3]);
    assert_eq!(RawProofConverter.convert(vec![]), Err(Error::Conversion));
}

#[test]
fn fixed_width_constructors() {
    assert!(Hash256::from_bytes(vec![0; 31]).is_none());
    assert!(Hash256::from_bytes(vec![0; 33]).is_none());
    assert!(Hash256::from_bytes(vec![0; 32]).is_some());
    assert!(Address::from_bytes(vec![0; 19]).is_none());
    assert!(Address::from_bytes(vec![0; 20]).is_some());
    let w = U256::from_u64(42);
    assert_eq!((w.limb0, w.limb1, w.limb2, w.limb3), (42, 0, 0, 0));
}
