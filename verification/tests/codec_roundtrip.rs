use jsonrpc_proto::codec::{decode_block, encode_block};
use jsonrpc_proto::proto::{ProtoBlock, ProtoBody, ProtoHeader, ProtoTransaction};
use jsonrpc_proto::types::{Address, DecodeError, Hash256};

fn sample_hash(fill: u8) -> Hash256 {
    Hash256::from_bytes(vec![fill; 32]).unwrap()
}

fn sample_addr(fill: u8) -> Address {
    Address::from_bytes(vec![fill; 20]).unwrap()
}

fn sample_header(height: u64, proof: Option<Vec<u8>>) -> ProtoHeader {
    ProtoHeader {
        timestamp: 1_600_000_123,
        height,
        prevhash: sample_hash(1),
        state_root: sample_hash(2),
        transactions_root: sample_hash(3),
        receipts_root: sample_hash(4),
        quota_used: 987_654,
        proof,
        proposer: sample_addr(5),
    }
}

fn sample_block(height: u64, proof: Option<Vec<u8>>, txs: Vec<ProtoTransaction>) -> ProtoBlock {
    ProtoBlock {
        version: 7,
        header: sample_header(height, proof),
        body: ProtoBody { transactions: txs },
    }
}

#[test]
fn roundtrip_empty_body() {
    let block = sample_block(0, None, vec![]);
    let bytes = encode_block(&block);
    let back = decode_block(&bytes).unwrap();
    assert_eq!(back, sample_block(0, None, vec![]));
}

#[test]
fn roundtrip_with_proof_and_txs() {
    let txs = vec![
        ProtoTransaction { tx_hash: sample_hash(9), payload: Some(vec![1, 2, 3]) },
        ProtoTransaction { tx_hash: sample_hash(10), payload: None },
    ];
    let block = sample_block(5, Some(vec![0xAA, 0xBB]), txs);
    let bytes = encode_block(&block);
    let back = decode_block(&bytes).unwrap();
    let txs2 = vec![
        ProtoTransaction { tx_hash: sample_hash(9), payload: Some(vec![1, 2, 3]) },
        ProtoTransaction { tx_hash: sample_hash(10), payload: None },
    ];
    assert_eq!(back, sample_block(5, Some(vec![0xAA, 0xBB]), txs2));
}

#[test]
fn empty_bytes_truncated() {
    assert_eq!(decode_block(&vec![]), Err(DecodeError::Truncated));
}

#[test]
fn cut_bytes_truncated() {
    let block = sample_block(3, Some(vec![1, 2, 3, 4]), vec![]);
    let mut bytes = encode_block(&block);
    bytes.truncate(bytes.len() - 1);
    assert_eq!(decode_block(&bytes), Err(DecodeError::Truncated));
}

#[test]
fn cut_header_truncated() {
    let block = sample_block(3, None, vec![]);
    let mut bytes = encode_block(&block);
    bytes.truncate(100);
    assert_eq!(decode_block(&bytes), Err(DecodeError::Truncated));
}

#[test]
fn bad_presence_tag() {
    let block = sample_block(3, None, vec![]);
    let mut bytes = encode_block(&block);
    // the proof presence tag sits right after the 4 + 172 fixed bytes
    bytes[176] = 9;
    assert_eq!(decode_block(&bytes), Err(DecodeError::BadTag));
}

#[test]
fn trailing_byte_refused() {
    let block = sample_block(3, None, vec![]);
    let mut bytes = encode_block(&block);
    bytes.push(0);
    assert_eq!(decode_block(&bytes), Err(DecodeError::Trailing));
}

#[test]
fn integers_little_endian() {
    let block = sample_block(0x0102_0304_0506_0708, None, vec![]);
    let bytes = encode_block(&block);
    // version = 7, little endian
    assert_eq!(&bytes[0..4], &[7, 0, 0, 0]);
    // height follows the 8 timestamp bytes
    assert_eq!(&bytes[12..20], &[8, 7, 6, 5, 4, 3, 2, 1]);
}
