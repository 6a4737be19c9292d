//! The wire encoding of a block and its verified decoder.
//!
//! A block is laid out as: version (4 bytes), header, transaction count
//! (8 bytes), then each transaction. The header is its timestamp, height,
//! four 32-byte roots, the quota, the 20-byte proposer, and the optional
//! proof bytes. Integers are little endian; optional byte fields
//! carry a one-byte presence tag and, when present, an 8-byte length before
//! the bytes; the encoding is canonical, and trailing bytes are refused.

use vstd::prelude::*;

use crate::proto::{
    tx_views, ProtoBlock, ProtoBlockView, ProtoBody, ProtoHeader, ProtoHeaderView,
    ProtoTransaction, ProtoTransactionView,
};
use crate::types::{Address, DecodeError, Hash256};

verus! {

/// The view of an optional byte field.
pub open spec fn opt_bytes_view(o: Option<Vec<u8>>) -> Option<Seq<u8>> {
    match o {
        Some(v) => Some(v@),
        None => None,
    }
}

// --- little-endian integers ---

/// The 8 little-endian bytes of a 64-bit integer.
pub open spec fn le_bytes64(x: u64) -> Seq<u8> {
    seq![
        (x % 256) as u8,
        (x / 256 % 256) as u8,
        (x / 65536 % 256) as u8,
        (x / 16777216 % 256) as u8,
        (x / 4294967296 % 256) as u8,
        (x / 1099511627776 % 256) as u8,
        (x / 281474976710656 % 256) as u8,
        (x / 72057594037927936 % 256) as u8,
    ]
}

/// The integer held by 8 little-endian bytes.
pub open spec fn le_value64(s: Seq<u8>) -> int {
    s[0] as int + 256 * (s[1] as int) + 65536 * (s[2] as int) + 16777216 * (s[3] as int)
        + 4294967296 * (s[4] as int) + 1099511627776 * (s[5] as int)
        + 281474976710656 * (s[6] as int) + 72057594037927936 * (s[7] as int)
}

/// The 4 little-endian bytes of a 32-bit integer.
pub open spec fn le_bytes32(x: u32) -> Seq<u8> {
    seq![
        (x % 256) as u8,
        (x / 256 % 256) as u8,
        (x / 65536 % 256) as u8,
        (x / 16777216 % 256) as u8,
    ]
}

/// The integer held by 4 little-endian bytes.
pub open spec fn le_value32(s: Seq<u8>) -> int {
    s[0] as int + 256 * (s[1] as int) + 65536 * (s[2] as int) + 16777216 * (s[3] as int)
}

pub proof fn lemma_le_value64_bound(s: Seq<u8>)
    ensures
        0 <= le_value64(s) < 0x1_0000_0000_0000_0000,
{
}

pub proof fn lemma_le_value32_bound(s: Seq<u8>)
    ensures
        0 <= le_value32(s) < 0x1_0000_0000,
{
}

pub proof fn lemma_le64_roundtrip(x: u64)
    ensures
        le_value64(le_bytes64(x)) == x,
{
    assert(x % 256 + 256 * (x / 256 % 256) + 65536 * (x / 65536 % 256) + 16777216 * (x
        / 16777216 % 256) + 4294967296 * (x / 4294967296 % 256) + 1099511627776 * (x
        / 1099511627776 % 256) + 281474976710656 * (x / 281474976710656 % 256)
        + 72057594037927936 * (x / 72057594037927936 % 256) == x) by (bit_vector);
}

pub proof fn lemma_le32_roundtrip(x: u32)
    ensures
        le_value32(le_bytes32(x)) == x,
{
    assert(x % 256 + 256 * (x / 256 % 256) + 65536 * (x / 65536 % 256) + 16777216 * (x
        / 16777216 % 256) == x) by (bit_vector);
}

// --- the encoding ---

/// The encoding of an optional byte field.
pub open spec fn enc_opt_bytes(o: Option<Seq<u8>>) -> Seq<u8> {
    match o {
        None => seq![0u8],
        Some(c) => seq![1u8] + le_bytes64(c.len() as u64) + c,
    }
}

/// The encoding of a header.
pub open spec fn enc_header(h: ProtoHeaderView) -> Seq<u8> {
    le_bytes64(h.timestamp) + le_bytes64(h.height) + h.prevhash + h.state_root
        + h.transactions_root + h.receipts_root + le_bytes64(h.quota_used) + h.proposer
        + enc_opt_bytes(h.proof)
}

/// The encoding of one transaction.
pub open spec fn enc_tx(t: ProtoTransactionView) -> Seq<u8> {
    t.tx_hash + enc_opt_bytes(t.payload)
}

/// The encoding of a transaction list, in order.
pub open spec fn enc_txs(s: Seq<ProtoTransactionView>) -> Seq<u8>
    decreases s.len(),
{
    if s.len() == 0 {
        Seq::empty()
    } else {
        enc_tx(s[0]) + enc_txs(s.drop_first())
    }
}

/// The encoding of a whole block.
pub open spec fn enc_block(v: ProtoBlockView) -> Seq<u8> {
    le_bytes32(v.version) + enc_header(v.header) + le_bytes64(v.transactions.len() as u64)
        + enc_txs(v.transactions)
}

/// Whether an optional byte field is small enough to encode.
pub open spec fn wf_opt(o: Option<Seq<u8>>) -> bool {
    o matches Some(c) ==> c.len() < 0x1_0000_0000_0000_0000
}

/// Whether a header view has its fields at their fixed widths.
pub open spec fn wf_header(h: ProtoHeaderView) -> bool {
    &&& h.prevhash.len() == 32
    &&& h.state_root.len() == 32
    &&& h.transactions_root.len() == 32
    &&& h.receipts_root.len() == 32
    &&& h.proposer.len() == 20
    &&& wf_opt(h.proof)
}

/// Whether a transaction view has its hash at its fixed width.
pub open spec fn wf_tx(t: ProtoTransactionView) -> bool {
    t.tx_hash.len() == 32 && wf_opt(t.payload)
}

/// Whether a block view is encodable.
pub open spec fn wf_block(v: ProtoBlockView) -> bool {
    &&& wf_header(v.header)
    &&& v.transactions.len() < 0x1_0000_0000_0000_0000
    &&& forall|i: int| 0 <= i < v.transactions.len() ==> wf_tx(#[trigger] v.transactions[i])
}

// --- the decoding, as a mathematical parser ---

/// Reads a 64-bit integer off the front.
pub open spec fn p_u64(b: Seq<u8>) -> Result<(u64, Seq<u8>), DecodeError> {
    if b.len() < 8 {
        Err(DecodeError::Truncated)
    } else {
        Ok((le_value64(b.take(8)) as u64, b.skip(8)))
    }
}

/// Reads an optional byte field off the front.
pub open spec fn p_opt_bytes(b: Seq<u8>) -> Result<(Option<Seq<u8>>, Seq<u8>), DecodeError> {
    if b.len() < 1 {
        Err(DecodeError::Truncated)
    } else if b[0] == 0 {
        Ok((None, b.skip(1)))
    } else if b[0] == 1 {
        match p_u64(b.skip(1)) {
            Err(e) => Err(e),
            Ok((n, r)) => if r.len() < n as nat {
                Err(DecodeError::Truncated)
            } else {
                Ok((Some(r.take(n as int)), r.skip(n as int)))
            },
        }
    } else {
        Err(DecodeError::BadTag)
    }
}

/// Reads a header off the front.
pub open spec fn p_header(b: Seq<u8>) -> Result<(ProtoHeaderView, Seq<u8>), DecodeError> {
    if b.len() < 172 {
        Err(DecodeError::Truncated)
    } else {
        match p_opt_bytes(b.skip(172)) {
            Err(e) => Err(e),
            Ok((proof, rest)) => Ok((
                ProtoHeaderView {
                    timestamp: le_value64(b.subrange(0, 8)) as u64,
                    height: le_value64(b.subrange(8, 16)) as u64,
                    prevhash: b.subrange(16, 48),
                    state_root: b.subrange(48, 80),
                    transactions_root: b.subrange(80, 112),
                    receipts_root: b.subrange(112, 144),
                    quota_used: le_value64(b.subrange(144, 152)) as u64,
                    proposer: b.subrange(152, 172),
                    proof,
                },
                rest,
            )),
        }
    }
}

/// Reads `n` transactions off the front.
pub open spec fn p_txs(n: nat, b: Seq<u8>) -> Result<(Seq<ProtoTransactionView>, Seq<u8>), DecodeError>
    decreases n,
{
    if n == 0 {
        Ok((Seq::empty(), b))
    } else if b.len() < 32 {
        Err(DecodeError::Truncated)
    } else {
        match p_opt_bytes(b.skip(32)) {
            Err(e) => Err(e),
            Ok((payload, r1)) => match p_txs((n - 1) as nat, r1) {
                Err(e) => Err(e),
                Ok((txs, r2)) => Ok((
                    seq![ProtoTransactionView { tx_hash: b.take(32), payload }] + txs,
                    r2,
                )),
            },
        }
    }
}

/// What decoding a byte string yields: the block it canonically encodes, or
/// the cause of its rejection.
pub open spec fn decode_spec(b: Seq<u8>) -> Result<ProtoBlockView, DecodeError> {
    if b.len() < 4 {
        Err(DecodeError::Truncated)
    } else {
        match p_header(b.skip(4)) {
            Err(e) => Err(e),
            Ok((header, r1)) => match p_u64(r1) {
                Err(e) => Err(e),
                Ok((n, r2)) => match p_txs(n as nat, r2) {
                    Err(e) => Err(e),
                    Ok((transactions, r3)) => if r3.len() == 0 {
                        Ok(ProtoBlockView {
                            version: le_value32(b.take(4)) as u32,
                            header,
                            transactions,
                        })
                    } else {
                        Err(DecodeError::Trailing)
                    },
                },
            },
        }
    }
}

// --- the decoder inverts the encoder ---

proof fn lemma_split(a: Seq<u8>, b: Seq<u8>)
    ensures
        (a + b).len() == a.len() + b.len(),
        (a + b).take(a.len() as int) == a,
        (a + b).skip(a.len() as int) == b,
{
    assert((a + b).take(a.len() as int) =~= a);
    assert((a + b).skip(a.len() as int) =~= b);
}

proof fn lemma_p_opt_enc(o: Option<Seq<u8>>, rest: Seq<u8>)
    requires
        wf_opt(o),
    ensures
        p_opt_bytes(enc_opt_bytes(o) + rest) == Ok::<(Option<Seq<u8>>, Seq<u8>), DecodeError>(
            (o, rest),
        ),
{
    let s = enc_opt_bytes(o) + rest;
    match o {
        None => {
            assert(s[0] == 0);
            assert(s.skip(1) =~= rest);
        }
        Some(c) => {
            let n = c.len() as u64;
            assert(s =~= seq![1u8] + (le_bytes64(n) + (c + rest)));
            assert(s[0] == 1);
            assert(s.skip(1) =~= le_bytes64(n) + (c + rest));
            lemma_split(le_bytes64(n), c + rest);
            lemma_le64_roundtrip(n);
            assert(s.skip(1).take(8) == le_bytes64(n));
            let r = s.skip(1).skip(8);
            assert(r =~= c + rest);
            lemma_split(c, rest);
            assert(r.take(n as int) == c);
            assert(r.skip(n as int) == rest);
        }
    }
}

proof fn lemma_p_txs_enc(ts: Seq<ProtoTransactionView>, rest: Seq<u8>)
    requires
        forall|i: int| 0 <= i < ts.len() ==> wf_tx(#[trigger] ts[i]),
    ensures
        p_txs(ts.len(), enc_txs(ts) + rest) == Ok::<(Seq<ProtoTransactionView>, Seq<u8>), DecodeError>(
            (ts, rest),
        ),
    decreases ts.len(),
{
    if ts.len() == 0 {
        assert(enc_txs(ts) + rest =~= rest);
        assert(ts =~= Seq::<ProtoTransactionView>::empty());
    } else {
        let t = ts[0];
        assert(wf_tx(t));
        let tail = enc_txs(ts.drop_first()) + rest;
        let s = enc_txs(ts) + rest;
        assert(s =~= t.tx_hash + (enc_opt_bytes(t.payload) + tail));
        lemma_split(t.tx_hash, enc_opt_bytes(t.payload) + tail);
        assert(s.take(32) == t.tx_hash);
        assert(s.skip(32) == enc_opt_bytes(t.payload) + tail);
        assert(s.len() >= 32);
        lemma_p_opt_enc(t.payload, tail);
        assert(forall|i: int| 0 <= i < ts.drop_first().len() ==> wf_tx(
            #[trigger] ts.drop_first()[i],
        ));
        lemma_p_txs_enc(ts.drop_first(), rest);
        assert(p_txs((ts.len() - 1) as nat, tail) == Ok::<(Seq<ProtoTransactionView>, Seq<u8>), DecodeError>(
            (ts.drop_first(), rest),
        ));
        assert(seq![ProtoTransactionView { tx_hash: s.take(32), payload: t.payload }]
            + ts.drop_first() =~= ts);
    }
}

/// A helper: what stands at `off` of `b` when the suffix there is known.
proof fn lemma_peel(b: Seq<u8>, off: int, a: Seq<u8>, rest: Seq<u8>)
    requires
        0 <= off <= b.len(),
        b.skip(off) == a + rest,
    ensures
        off + a.len() <= b.len(),
        b.subrange(off, off + a.len()) == a,
        b.skip(off + a.len()) == rest,
{
    assert(b.skip(off).len() == b.len() - off);
    assert(off + a.len() <= b.len());
    assert forall|i: int| 0 <= i < a.len() implies b.subrange(off, off + a.len() as int)[i]
        == a[i] by {
        assert(b.skip(off)[i] == b[off + i]);
        assert((a + rest)[i] == a[i]);
    }
    assert(b.subrange(off, off + a.len() as int) =~= a);
    assert forall|i: int| 0 <= i < rest.len() implies b.skip(off + a.len() as int)[i]
        == rest[i] by {
        assert(b.skip(off)[i + a.len()] == b[off + a.len() + i]);
        assert((a + rest)[i + a.len()] == rest[i]);
    }
    assert(b.skip(off + a.len() as int) =~= rest);
}

proof fn lemma_assoc(x: Seq<u8>, y: Seq<u8>, z: Seq<u8>)
    ensures
        (x + y) + z == x + (y + z),
{
    assert((x + y) + z =~= x + (y + z));
}

#[verifier::rlimit(60)]
proof fn lemma_header_nested(h: ProtoHeaderView, tail: Seq<u8>)
    ensures
        enc_header(h) + tail == le_bytes64(h.timestamp) + (le_bytes64(h.height) + (h.prevhash
            + (h.state_root + (h.transactions_root + (h.receipts_root + (le_bytes64(
            h.quota_used,
        ) + (h.proposer + (enc_opt_bytes(h.proof) + tail)))))))),
{
    let c1 = le_bytes64(h.timestamp);
    let c2 = le_bytes64(h.height);
    let c3 = h.prevhash;
    let c4 = h.state_root;
    let c5 = h.transactions_root;
    let c6 = h.receipts_root;
    let c7 = le_bytes64(h.quota_used);
    let c8 = h.proposer;
    let c9 = enc_opt_bytes(h.proof);
    lemma_assoc(c1 + c2 + c3 + c4 + c5 + c6 + c7 + c8, c9, tail);
    lemma_assoc(c1 + c2 + c3 + c4 + c5 + c6 + c7, c8, c9 + tail);
    lemma_assoc(c1 + c2 + c3 + c4 + c5 + c6, c7, c8 + (c9 + tail));
    lemma_assoc(c1 + c2 + c3 + c4 + c5, c6, c7 + (c8 + (c9 + tail)));
    lemma_assoc(c1 + c2 + c3 + c4, c5, c6 + (c7 + (c8 + (c9 + tail))));
    lemma_assoc(c1 + c2 + c3, c4, c5 + (c6 + (c7 + (c8 + (c9 + tail)))));
    lemma_assoc(c1 + c2, c3, c4 + (c5 + (c6 + (c7 + (c8 + (c9 + tail))))));
    lemma_assoc(c1, c2, c3 + (c4 + (c5 + (c6 + (c7 + (c8 + (c9 + tail)))))));
}

/// Parsing a header off an encoded header followed by anything recovers the
/// header and leaves the rest.
#[verifier::rlimit(100)]
#[verifier::spinoff_prover]
proof fn lemma_p_header_enc(h: ProtoHeaderView, tail: Seq<u8>)
    requires
        wf_header(h),
    ensures
        p_header(enc_header(h) + tail) == Ok::<(ProtoHeaderView, Seq<u8>), DecodeError>(
            (h, tail),
        ),
{
    let c1 = le_bytes64(h.timestamp);
    let c2 = le_bytes64(h.height);
    let c3 = h.prevhash;
    let c4 = h.state_root;
    let c5 = h.transactions_root;
    let c6 = h.receipts_root;
    let c7 = le_bytes64(h.quota_used);
    let c8 = h.proposer;
    let c9 = enc_opt_bytes(h.proof);
    let r1 = enc_header(h) + tail;
    lemma_header_nested(h, tail);
    assert(r1.skip(0) =~= r1);
    lemma_peel(r1, 0, c1, c2 + (c3 + (c4 + (c5 + (c6 + (c7 + (c8 + (c9 + tail))))))));
    lemma_peel(r1, 8, c2, c3 + (c4 + (c5 + (c6 + (c7 + (c8 + (c9 + tail)))))));
    lemma_peel(r1, 16, c3, c4 + (c5 + (c6 + (c7 + (c8 + (c9 + tail))))));
    lemma_peel(r1, 48, c4, c5 + (c6 + (c7 + (c8 + (c9 + tail)))));
    lemma_peel(r1, 80, c5, c6 + (c7 + (c8 + (c9 + tail))));
    lemma_peel(r1, 112, c6, c7 + (c8 + (c9 + tail)));
    lemma_peel(r1, 144, c7, c8 + (c9 + tail));
    lemma_peel(r1, 152, c8, c9 + tail);
    assert(r1.len() >= 172);
    lemma_le64_roundtrip(h.timestamp);
    lemma_le64_roundtrip(h.height);
    lemma_le64_roundtrip(h.quota_used);
    lemma_p_opt_enc(h.proof, tail);
    assert(r1.skip(172) == c9 + tail);
    assert(p_opt_bytes(r1.skip(172)) == Ok::<(Option<Seq<u8>>, Seq<u8>), DecodeError>(
        (h.proof, tail),
    ));
    let parsed = p_header(r1);
    assert(parsed matches Ok((ph, prest)) && ph =~= h && prest == tail);
}

#[verifier::spinoff_prover]
proof fn lemma_enc_block_split(v: ProtoBlockView)
    ensures
        enc_block(v).take(4) == le_bytes32(v.version),
        enc_block(v).skip(4) == enc_header(v.header) + (le_bytes64(v.transactions.len() as u64)
            + enc_txs(v.transactions)),
{
    let count = le_bytes64(v.transactions.len() as u64);
    let body = enc_txs(v.transactions);
    let tail = count + body;
    let hd = enc_header(v.header);
    lemma_assoc(le_bytes32(v.version) + hd, count, body);
    lemma_assoc(le_bytes32(v.version), hd, tail);
    assert(enc_block(v) == le_bytes32(v.version) + (hd + tail));
    lemma_split(le_bytes32(v.version), hd + tail);
}

#[verifier::spinoff_prover]
proof fn lemma_body_pieces(ts: Seq<ProtoTransactionView>)
    requires
        ts.len() < 0x1_0000_0000_0000_0000,
        forall|i: int| 0 <= i < ts.len() ==> wf_tx(#[trigger] ts[i]),
    ensures
        p_u64(le_bytes64(ts.len() as u64) + enc_txs(ts)) == Ok::<(u64, Seq<u8>), DecodeError>(
            (ts.len() as u64, enc_txs(ts)),
        ),
        p_txs(ts.len(), enc_txs(ts)) == Ok::<(Seq<ProtoTransactionView>, Seq<u8>), DecodeError>(
            (ts, Seq::<u8>::empty()),
        ),
{
    let count = le_bytes64(ts.len() as u64);
    let body = enc_txs(ts);
    lemma_split(count, body);
    lemma_le64_roundtrip(ts.len() as u64);
    assert(p_u64(count + body) == Ok::<(u64, Seq<u8>), DecodeError>((ts.len() as u64, body)));
    lemma_p_txs_enc(ts, Seq::<u8>::empty());
    assert(body + Seq::<u8>::empty() =~= body);
    assert(p_txs(ts.len(), body) == Ok::<(Seq<ProtoTransactionView>, Seq<u8>), DecodeError>(
        (ts, Seq::<u8>::empty()),
    ));
}

/// Decoding inverts encoding: every well-formed block view is recovered,
/// exactly, from its own encoding.
#[verifier::rlimit(100)]
#[verifier::spinoff_prover]
pub proof fn lemma_decode_encode(v: ProtoBlockView)
    requires
        wf_block(v),
    ensures
        decode_spec(enc_block(v)) == Ok::<ProtoBlockView, DecodeError>(v),
{
    lemma_enc_block_split(v);
    lemma_le32_roundtrip(v.version);
    lemma_p_header_enc(
        v.header,
        le_bytes64(v.transactions.len() as u64) + enc_txs(v.transactions),
    );
    lemma_body_pieces(v.transactions);
    assert(enc_block(v).len() >= 4);
}

// --- the executable encoder ---

#[verifier::loop_isolation(false)]
fn push_all(out: &mut Vec<u8>, src: &Vec<u8>)
    ensures
        final(out)@ == old(out)@ + src@,
{
    let mut i: usize = 0;
    while i < src.len()
        invariant
            i <= src@.len(),
            out@ == old(out)@ + src@.take(i as int),
        decreases src@.len() - i,
    {
        out.push(src[i]);
        assert(old(out)@ + src@.take(i as int) + seq![src@[i as int]] =~= old(out)@ + src@.take(
            i as int + 1,
        ));
        i = i + 1;
    }
    assert(old(out)@ + src@.take(src@.len() as int) =~= old(out)@ + src@);
}

fn push_le64(out: &mut Vec<u8>, x: u64)
    ensures
        final(out)@ == old(out)@ + le_bytes64(x),
{
    out.push((x % 256) as u8);
    out.push((x / 256 % 256) as u8);
    out.push((x / 65536 % 256) as u8);
    out.push((x / 16777216 % 256) as u8);
    out.push((x / 4294967296 % 256) as u8);
    out.push((x / 1099511627776 % 256) as u8);
    out.push((x / 281474976710656 % 256) as u8);
    out.push((x / 72057594037927936 % 256) as u8);
    assert(out@ =~= old(out)@ + le_bytes64(x));
}

fn push_le32(out: &mut Vec<u8>, x: u32)
    ensures
        final(out)@ == old(out)@ + le_bytes32(x),
{
    out.push((x % 256) as u8);
    out.push((x / 256 % 256) as u8);
    out.push((x / 65536 % 256) as u8);
    out.push((x / 16777216 % 256) as u8);
    assert(out@ =~= old(out)@ + le_bytes32(x));
}

fn push_opt_bytes(out: &mut Vec<u8>, o: &Option<Vec<u8>>)
    ensures
        final(out)@ == old(out)@ + enc_opt_bytes(opt_bytes_view(*o)),
{
    match o {
        None => {
            out.push(0u8);
            assert(out@ =~= old(out)@ + enc_opt_bytes(opt_bytes_view(*o)));
        }
        Some(v) => {
            out.push(1u8);
            push_le64(out, v.len() as u64);
            push_all(out, v);
            assert(out@ =~= old(out)@ + enc_opt_bytes(opt_bytes_view(*o)));
        }
    }
}

fn push_header(out: &mut Vec<u8>, h: &ProtoHeader)
    ensures
        final(out)@ == old(out)@ + enc_header(h@),
{
    push_le64(out, h.timestamp);
    push_le64(out, h.height);
    push_all(out, h.prevhash.as_bytes());
    push_all(out, h.state_root.as_bytes());
    push_all(out, h.transactions_root.as_bytes());
    push_all(out, h.receipts_root.as_bytes());
    push_le64(out, h.quota_used);
    push_all(out, h.proposer.as_bytes());
    push_opt_bytes(out, &h.proof);
    proof {
        let o = old(out)@;
        let c1 = le_bytes64(h.timestamp);
        let c2 = le_bytes64(h.height);
        let c3 = h.prevhash@;
        let c4 = h.state_root@;
        let c5 = h.transactions_root@;
        let c6 = h.receipts_root@;
        let c7 = le_bytes64(h.quota_used);
        let c8 = h.proposer@;
        let c9 = enc_opt_bytes(opt_bytes_view(h.proof));
        lemma_assoc(o, c1, c2);
        lemma_assoc(o, c1 + c2, c3);
        lemma_assoc(o, c1 + c2 + c3, c4);
        lemma_assoc(o, c1 + c2 + c3 + c4, c5);
        lemma_assoc(o, c1 + c2 + c3 + c4 + c5, c6);
        lemma_assoc(o, c1 + c2 + c3 + c4 + c5 + c6, c7);
        lemma_assoc(o, c1 + c2 + c3 + c4 + c5 + c6 + c7, c8);
        lemma_assoc(o, c1 + c2 + c3 + c4 + c5 + c6 + c7 + c8, c9);
    }
}

#[verifier::rlimit(100)]
#[verifier::spinoff_prover]
proof fn lemma_enc_txs_push(s: Seq<ProtoTransactionView>, t: ProtoTransactionView)
    ensures
        enc_txs(s.push(t)) == enc_txs(s) + enc_tx(t),
    decreases s.len(),
{
    if s.len() == 0 {
        assert(s.push(t)[0] == t);
        assert(s.push(t).drop_first() =~= Seq::<ProtoTransactionView>::empty());
        assert(enc_txs(Seq::<ProtoTransactionView>::empty()) == Seq::<u8>::empty());
        assert(enc_txs(s.push(t)) =~= enc_tx(t) + Seq::<u8>::empty());
        assert(enc_tx(t) + Seq::<u8>::empty() =~= enc_tx(t));
        assert(enc_txs(s) + enc_tx(t) =~= enc_tx(t));
    } else {
        assert(s.push(t)[0] == s[0]);
        assert(s.push(t).drop_first() =~= s.drop_first().push(t));
        lemma_enc_txs_push(s.drop_first(), t);
        assert(enc_tx(s[0]) + (enc_txs(s.drop_first()) + enc_tx(t)) =~= (enc_tx(s[0]) + enc_txs(
            s.drop_first(),
        )) + enc_tx(t));
    }
}

/// Writes a block out in its wire encoding; the bytes decode back to
/// exactly this block.
#[verifier::loop_isolation(false)]
pub fn encode_block(block: &ProtoBlock) -> (out: Vec<u8>)
    ensures
        out@ == enc_block(block@),
        decode_spec(out@) == Ok::<ProtoBlockView, DecodeError>(block@),
{
    proof {
        use_type_invariant(&block.header.prevhash);
        use_type_invariant(&block.header.state_root);
        use_type_invariant(&block.header.transactions_root);
        use_type_invariant(&block.header.receipts_root);
        use_type_invariant(&block.header.proposer);
        match &block.header.proof {
            Some(v) => {
                vstd::std_specs::vec::axiom_spec_len(v);
            }
            None => {}
        }
        vstd::std_specs::vec::axiom_spec_len(&block.body.transactions);
        assert(wf_header(block@.header));
    }
    let mut out: Vec<u8> = Vec::new();
    push_le32(&mut out, block.version);
    push_header(&mut out, &block.header);
    let txs = &block.body.transactions;
    push_le64(&mut out, txs.len() as u64);
    let ghost base = out@;
    let mut i: usize = 0;
    while i < txs.len()
        invariant
            i <= txs@.len(),
            out@ == base + enc_txs(tx_views(txs@).take(i as int)),
            forall|j: int| 0 <= j < i ==> wf_tx(#[trigger] tx_views(txs@)[j]),
        decreases txs@.len() - i,
    {
        let t = &txs[i];
        let ghost pre = out@;
        push_all(&mut out, t.tx_hash.as_bytes());
        push_opt_bytes(&mut out, &t.payload);
        proof {
            use_type_invariant(&t.tx_hash);
            match &t.payload {
                Some(v) => {
                    vstd::std_specs::vec::axiom_spec_len(v);
                }
                None => {}
            }
            assert(tx_views(txs@)[i as int] == txs@[i as int]@);
            assert(wf_tx(tx_views(txs@)[i as int]));
            assert(tx_views(txs@).take(i as int + 1) =~= tx_views(txs@).take(i as int).push(
                txs@[i as int]@,
            ));
            lemma_enc_txs_push(tx_views(txs@).take(i as int), txs@[i as int]@);
            assert(pre + t.tx_hash@ + enc_opt_bytes(opt_bytes_view(t.payload)) =~= pre + enc_tx(
                txs@[i as int]@,
            ));
            assert(out@ =~= base + enc_txs(tx_views(txs@).take(i as int + 1)));
        }
        i = i + 1;
    }
    assert(tx_views(txs@).take(txs@.len() as int) =~= tx_views(txs@));
    assert(out@ =~= enc_block(block@));
    proof {
        assert(wf_block(block@));
        lemma_decode_encode(block@);
    }
    out
}

// --- the executable decoder ---

#[verifier::loop_isolation(false)]
fn read_bytes(b: &Vec<u8>, pos: usize, n: usize) -> (r: Option<(Vec<u8>, usize)>)
    requires
        pos <= b@.len(),
    ensures
        pos + n <= b@.len() ==> (r matches Some((v, p2)) && v@ == b@.subrange(
            pos as int,
            pos as int + n as int,
        ) && p2 == pos + n),
        pos + n > b@.len() ==> r is None,
{
    if n > b.len() - pos {
        return None;
    }
    let mut v: Vec<u8> = Vec::new();
    let mut i: usize = 0;
    while i < n
        invariant
            i <= n,
            v@ == b@.subrange(pos as int, pos as int + i as int),
        decreases n - i,
    {
        v.push(b[pos + i]);
        assert(b@.subrange(pos as int, pos as int + i as int).push(b@[pos as int + i as int])
            =~= b@.subrange(pos as int, pos as int + i as int + 1));
        i = i + 1;
    }
    Some((v, pos + n))
}

fn read_u64_at(b: &Vec<u8>, pos: usize) -> (r: Option<(u64, usize)>)
    requires
        pos <= b@.len(),
    ensures
        pos + 8 <= b@.len() ==> (r matches Some((x, p2)) && x as int == le_value64(b@.subrange(
            pos as int,
            pos as int + 8,
        )) && p2 == pos + 8),
        pos + 8 > b@.len() ==> r is None,
{
    if 8 > b.len() - pos {
        return None;
    }
    let x = b[pos] as u64 + 256 * (b[pos + 1] as u64) + 65536 * (b[pos + 2] as u64) + 16777216
        * (b[pos + 3] as u64) + 4294967296 * (b[pos + 4] as u64) + 1099511627776 * (b[pos + 5]
        as u64) + 281474976710656 * (b[pos + 6] as u64) + 72057594037927936 * (b[pos + 7]
        as u64);
    proof {
        let s = b@.subrange(pos as int, pos as int + 8);
        assert(s[0] == b@[pos as int]);
        assert(s[1] == b@[pos as int + 1]);
        assert(s[2] == b@[pos as int + 2]);
        assert(s[3] == b@[pos as int + 3]);
        assert(s[4] == b@[pos as int + 4]);
        assert(s[5] == b@[pos as int + 5]);
        assert(s[6] == b@[pos as int + 6]);
        assert(s[7] == b@[pos as int + 7]);
    }
    Some((x, pos + 8))
}

fn read_u32_at(b: &Vec<u8>, pos: usize) -> (r: Option<(u32, usize)>)
    requires
        pos <= b@.len(),
    ensures
        pos + 4 <= b@.len() ==> (r matches Some((x, p2)) && x as int == le_value32(b@.subrange(
            pos as int,
            pos as int + 4,
        )) && p2 == pos + 4),
        pos + 4 > b@.len() ==> r is None,
{
    if 4 > b.len() - pos {
        return None;
    }
    let x = b[pos] as u32 + 256 * (b[pos + 1] as u32) + 65536 * (b[pos + 2] as u32) + 16777216
        * (b[pos + 3] as u32);
    proof {
        let s = b@.subrange(pos as int, pos as int + 4);
        assert(s[0] == b@[pos as int]);
        assert(s[1] == b@[pos as int + 1]);
        assert(s[2] == b@[pos as int + 2]);
        assert(s[3] == b@[pos as int + 3]);
    }
    Some((x, pos + 4))
}

fn read_hash_at(b: &Vec<u8>, pos: usize) -> (r: Option<(Hash256, usize)>)
    requires
        pos <= b@.len(),
    ensures
        pos + 32 <= b@.len() ==> (r matches Some((h, p2)) && h@ == b@.subrange(
            pos as int,
            pos as int + 32,
        ) && p2 == pos + 32),
        pos + 32 > b@.len() ==> r is None,
{
    match read_bytes(b, pos, 32) {
        None => None,
        Some((v, p2)) => Some((Hash256::from_exact(v), p2)),
    }
}

fn read_addr_at(b: &Vec<u8>, pos: usize) -> (r: Option<(Address, usize)>)
    requires
        pos <= b@.len(),
    ensures
        pos + 20 <= b@.len() ==> (r matches Some((a, p2)) && a@ == b@.subrange(
            pos as int,
            pos as int + 20,
        ) && p2 == pos + 20),
        pos + 20 > b@.len() ==> r is None,
{
    match read_bytes(b, pos, 20) {
        None => None,
        Some((v, p2)) => Some((Address::from_exact(v), p2)),
    }
}

#[verifier::rlimit(100)]
fn read_opt_bytes(b: &Vec<u8>, pos: usize) -> (r: Result<(Option<Vec<u8>>, usize), DecodeError>)
    requires
        pos <= b@.len(),
    ensures
        (match p_opt_bytes(b@.skip(pos as int)) {
            Ok((v, rest)) => r matches Ok((w, p2)) && opt_bytes_view(w) == v && pos <= p2
                <= b@.len() && rest == b@.skip(p2 as int),
            Err(e) => r matches Err(e2) && e2 == e,
        }),
{
    let ghost s = b@.skip(pos as int);
    if b.len() - pos < 1 {
        return Err(DecodeError::Truncated);
    }
    let tag = b[pos];
    assert(s[0] == b@[pos as int]);
    if tag == 0 {
        assert(s.skip(1) =~= b@.skip(pos as int + 1));
        return Ok((None, pos + 1));
    }
    if tag != 1 {
        return Err(DecodeError::BadTag);
    }
    assert(s.skip(1) =~= b@.skip(pos as int + 1));
    let (n, p2) = match read_u64_at(b, pos + 1) {
        Some(t) => t,
        None => {
            assert(s.skip(1).len() < 8);
            return Err(DecodeError::Truncated);
        }
    };
    proof {
        assert(s.skip(1).take(8) =~= b@.subrange(pos as int + 1, pos as int + 9));
        lemma_le_value64_bound(s.skip(1).take(8));
        assert(n == le_value64(s.skip(1).take(8)) as u64);
        assert(s.skip(1).skip(8) =~= b@.skip(p2 as int));
    }
    if n > (b.len() - p2) as u64 {
        assert(s.skip(1).skip(8).len() < n as nat);
        return Err(DecodeError::Truncated);
    }
    let ln = n as usize;
    let (v, p3) = match read_bytes(b, p2, ln) {
        Some(t) => t,
        None => {
            assert(false);
            return Err(DecodeError::Truncated);
        }
    };
    proof {
        assert(s.skip(1).skip(8).take(n as int) =~= b@.subrange(p2 as int, p2 as int + n as int));
        assert(s.skip(1).skip(8).skip(n as int) =~= b@.skip(p3 as int));
    }
    Ok((Some(v), p3))
}

/// Reads a header at `pos`, as the mathematical parser reads one there.
#[verifier::rlimit(100)]
fn read_header_at(b: &Vec<u8>, pos: usize) -> (r: Result<(ProtoHeader, usize), DecodeError>)
    requires
        pos <= b@.len(),
    ensures
        (match p_header(b@.skip(pos as int)) {
            Ok((hv, rest)) => r matches Ok((h, p2)) && h@ == hv && pos <= p2 <= b@.len()
                && rest == b@.skip(p2 as int),
            Err(e) => r matches Err(e2) && e2 == e,
        }),
{
    let ghost s = b@.skip(pos as int);
    let (timestamp, p2) = match read_u64_at(b, pos) {
        Some(t) => t,
        None => {
            return Err(DecodeError::Truncated);
        }
    };
    let (height, p3) = match read_u64_at(b, p2) {
        Some(t) => t,
        None => {
            return Err(DecodeError::Truncated);
        }
    };
    let (prevhash, p4) = match read_hash_at(b, p3) {
        Some(t) => t,
        None => {
            return Err(DecodeError::Truncated);
        }
    };
    let (state_root, p5) = match read_hash_at(b, p4) {
        Some(t) => t,
        None => {
            return Err(DecodeError::Truncated);
        }
    };
    let (transactions_root, p6) = match read_hash_at(b, p5) {
        Some(t) => t,
        None => {
            return Err(DecodeError::Truncated);
        }
    };
    let (receipts_root, p7) = match read_hash_at(b, p6) {
        Some(t) => t,
        None => {
            return Err(DecodeError::Truncated);
        }
    };
    let (quota_used, p8) = match read_u64_at(b, p7) {
        Some(t) => t,
        None => {
            return Err(DecodeError::Truncated);
        }
    };
    let (proposer, p9) = match read_addr_at(b, p8) {
        Some(t) => t,
        None => {
            return Err(DecodeError::Truncated);
        }
    };
    assert(s.len() >= 172);
    assert(s.skip(172) =~= b@.skip(pos as int + 172));
    let (proof_bytes, p10) = match read_opt_bytes(b, p9) {
        Ok(t) => t,
        Err(e) => {
            return Err(e);
        }
    };
    let header = ProtoHeader {
        timestamp,
        height,
        prevhash,
        state_root,
        transactions_root,
        receipts_root,
        quota_used,
        proof: proof_bytes,
        proposer,
    };
    proof {
        lemma_le_value64_bound(s.subrange(0, 8));
        lemma_le_value64_bound(s.subrange(8, 16));
        lemma_le_value64_bound(s.subrange(144, 152));
        assert(s.subrange(0, 8) =~= b@.subrange(pos as int, pos as int + 8));
        assert(s.subrange(8, 16) =~= b@.subrange(pos as int + 8, pos as int + 16));
        assert(s.subrange(16, 48) =~= b@.subrange(pos as int + 16, pos as int + 48));
        assert(s.subrange(48, 80) =~= b@.subrange(pos as int + 48, pos as int + 80));
        assert(s.subrange(80, 112) =~= b@.subrange(pos as int + 80, pos as int + 112));
        assert(s.subrange(112, 144) =~= b@.subrange(pos as int + 112, pos as int + 144));
        assert(s.subrange(144, 152) =~= b@.subrange(pos as int + 144, pos as int + 152));
        assert(s.subrange(152, 172) =~= b@.subrange(pos as int + 152, pos as int + 172));
        assert(p_header(s) matches Ok((hv, hrest)) && hv == header@ && hrest == b@.skip(
            p10 as int,
        ));
    }
    Ok((header, p10))
}

/// Decodes raw bytes into a typed block, or says why they are rejected:
/// the result is exactly what the mathematical decoder says of the bytes.
#[verifier::loop_isolation(false)]
#[verifier::rlimit(100)]
pub fn decode_block(bytes: &Vec<u8>) -> (r: Result<ProtoBlock, DecodeError>)
    ensures
        (match decode_spec(bytes@) {
            Ok(v) => r matches Ok(blk) && blk@ == v,
            Err(e) => r matches Err(e2) && e2 == e,
        }),
{
    let (version, p1) = match read_u32_at(bytes, 0) {
        Some(t) => t,
        None => {
            return Err(DecodeError::Truncated);
        }
    };
    let (header, p10) = match read_header_at(bytes, p1) {
        Ok(t) => t,
        Err(e) => {
            return Err(e);
        }
    };
    let (count, p11) = match read_u64_at(bytes, p10) {
        Some(t) => t,
        None => {
            assert(bytes@.skip(p10 as int).len() < 8);
            return Err(DecodeError::Truncated);
        }
    };
    proof {
        assert(bytes@.skip(p10 as int).take(8) =~= bytes@.subrange(p10 as int, p10 as int + 8));
        lemma_le_value64_bound(bytes@.skip(p10 as int).take(8));
        assert(bytes@.skip(p10 as int).skip(8) =~= bytes@.skip(p11 as int));
    }
    let ghost s0 = bytes@.skip(p11 as int);
    let mut txs_vec: Vec<ProtoTransaction> = Vec::new();
    let mut pos: usize = p11;
    let mut i: u64 = 0;
    while i < count
        invariant
            i <= count,
            pos <= bytes@.len(),
            (match p_txs((count - i) as nat, bytes@.skip(pos as int)) {
                Ok((ts, rest)) => p_txs(count as nat, s0) == Ok::<
                    (Seq<ProtoTransactionView>, Seq<u8>),
                    DecodeError,
                >((tx_views(txs_vec@) + ts, rest)),
                Err(e) => p_txs(count as nat, s0) == Err::<
                    (Seq<ProtoTransactionView>, Seq<u8>),
                    DecodeError,
                >(e),
            }),
        decreases count - i,
    {
        let ghost cur = bytes@.skip(pos as int);
        let (hash, q1) = match read_hash_at(bytes, pos) {
            Some(t) => t,
            None => {
                assert(cur.len() < 32);
                return Err(DecodeError::Truncated);
            }
        };
        assert(cur.skip(32) =~= bytes@.skip(q1 as int));
        let (payload, q2) = match read_opt_bytes(bytes, q1) {
            Ok(t) => t,
            Err(e) => {
                return Err(e);
            }
        };
        let t = ProtoTransaction { tx_hash: hash, payload };
        proof {
            assert(cur.take(32) =~= bytes@.subrange(pos as int, pos as int + 32));
            assert(t@ == ProtoTransactionView { tx_hash: cur.take(32), payload: opt_bytes_view(
                t.payload,
            ) });
            assert(tx_views(txs_vec@.push(t)) =~= tx_views(txs_vec@).push(t@));
            match p_txs((count - i - 1) as nat, bytes@.skip(q2 as int)) {
                Ok((ts2, rest2)) => {
                    assert(p_txs((count - i) as nat, cur) == Ok::<
                        (Seq<ProtoTransactionView>, Seq<u8>),
                        DecodeError,
                    >((seq![t@] + ts2, rest2)));
                    assert(tx_views(txs_vec@) + (seq![t@] + ts2) =~= tx_views(txs_vec@).push(t@)
                        + ts2);
                }
                Err(e2) => {
                    assert(p_txs((count - i) as nat, cur) == Err::<
                        (Seq<ProtoTransactionView>, Seq<u8>),
                        DecodeError,
                    >(e2));
                }
            }
        }
        txs_vec.push(t);
        pos = q2;
        i = i + 1;
    }
    assert(tx_views(txs_vec@) + Seq::<ProtoTransactionView>::empty() =~= tx_views(txs_vec@));
    if pos != bytes.len() {
        assert(bytes@.skip(pos as int).len() != 0);
        return Err(DecodeError::Trailing);
    }
    let block = ProtoBlock { version, header, body: ProtoBody { transactions: txs_vec } };
    proof {
        lemma_le_value32_bound(bytes@.take(4));
        assert(bytes@.take(4) =~= bytes@.subrange(0, 4));
        assert(bytes@.skip(pos as int).len() == 0);
        assert(decode_spec(bytes@) matches Ok(v) && v == block@);
    }
    Ok(block)
}

} // verus!
