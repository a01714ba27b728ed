use vstd::prelude::*;

use vstd::bytes::{
    lemma_auto_spec_u128_to_from_le_bytes, lemma_auto_spec_u64_to_from_le_bytes,
    spec_u128_from_le_bytes, spec_u128_to_le_bytes, spec_u64_from_le_bytes, spec_u64_to_le_bytes,
    u128_from_le_bytes, u128_to_le_bytes, u64_from_le_bytes, u64_to_le_bytes,
};
use vstd::slice::{slice_subrange, slice_to_vec};
use vstd::string::StrSliceExecFns;
use vstd::utf8::{
    decode_utf8, encode_utf8, encode_utf8_decode_utf8, encode_utf8_valid_utf8, valid_utf8,
};

use crate::amount::Amount;
use crate::block::{opt_view, txs_model, Block, BlockHeader, BlockModel, HeaderModel};
use crate::blockchain::{blocks_model, BlockChain, LedgerModel};
use crate::errors::LedgerError;
use crate::transaction::{Transaction, TxModel};

verus! {

// ---------------------------------------------------------------------------
// The binary snapshot form, stated over the mathematical models. Integers are
// little-endian and fixed-width; variable-length data carries a length or
// count prefix; strings are UTF-8.
// ---------------------------------------------------------------------------
/// Eight little-endian bytes.
pub open spec fn enc_u64(n: u64) -> Seq<u8> {
    spec_u64_to_le_bytes(n)
}

/// Sixteen little-endian bytes.
pub open spec fn enc_u128(n: u128) -> Seq<u8> {
    spec_u128_to_le_bytes(n)
}

/// Byte length, then the UTF-8 bytes.
pub open spec fn enc_string(s: Seq<char>) -> Seq<u8> {
    enc_u64(encode_utf8(s).len() as u64) + encode_utf8(s)
}

/// One tag byte, then the string if present.
pub open spec fn enc_opt_string(o: Option<Seq<char>>) -> Seq<u8> {
    match o {
        None => seq![0u8],
        Some(s) => seq![1u8] + enc_string(s),
    }
}

/// The two's-complement bit pattern of a mantissa.
pub open spec fn mantissa_bits(m: i128) -> u128 {
    if m >= 0 {
        m as u128
    } else {
        (m + 0x1_0000_0000_0000_0000_0000_0000_0000_0000) as u128
    }
}

/// The mantissa a bit pattern stands for.
pub open spec fn mantissa_of_bits(b: u128) -> i128 {
    if b <= i128::MAX as u128 {
        b as i128
    } else {
        (b - 0x1_0000_0000_0000_0000_0000_0000_0000_0000) as i128
    }
}

/// Mantissa bits, then the scale.
pub open spec fn enc_amount(a: Amount) -> Seq<u8> {
    enc_u128(mantissa_bits(a.mantissa)) + enc_u64(a.scale as u64)
}

/// Id, amount, sender, receiver, creation time.
pub open spec fn enc_tx(t: TxModel) -> Seq<u8> {
    enc_string(t.txid) + enc_amount(t.amount) + enc_string(t.from) + enc_string(t.to) + enc_u64(
        t.timestamp,
    )
}

/// The transactions in order, first first.
pub open spec fn enc_txs(ts: Seq<TxModel>) -> Seq<u8>
    decreases ts.len(),
{
    if ts.len() == 0 {
        Seq::empty()
    } else {
        enc_tx(ts.first()) + enc_txs(ts.drop_first())
    }
}

/// Every header field, in declaration order.
pub open spec fn enc_header(h: HeaderModel) -> Seq<u8> {
    enc_u64(h.index) + enc_string(h.version) + enc_opt_string(h.previous_block_hash) + enc_string(
        h.block_hash,
    ) + enc_string(h.merkle_root_hash) + enc_u64(h.timestamp) + enc_u64(h.nonce) + enc_u64(
        h.difficulty as u64,
    )
}

/// The header, then the committed transactions behind their count.
pub open spec fn enc_block(b: BlockModel) -> Seq<u8> {
    enc_header(b.header) + enc_u64(b.transactions.len() as u64) + enc_txs(b.transactions)
}

/// The blocks in chain order, first first.
pub open spec fn enc_blocks(bs: Seq<BlockModel>) -> Seq<u8>
    decreases bs.len(),
{
    if bs.len() == 0 {
        Seq::empty()
    } else {
        enc_block(bs.first()) + enc_blocks(bs.drop_first())
    }
}

/// The whole ledger: difficulty, the chain behind its count, the pool behind
/// its count.
pub open spec fn spec_encode_chain(l: LedgerModel) -> Seq<u8> {
    enc_u64(l.difficulty as u64) + enc_u64(l.chain.len() as u64) + enc_blocks(l.chain) + enc_u64(
        l.memory_pool.len() as u64,
    ) + enc_txs(l.memory_pool)
}

// ---------------------------------------------------------------------------
// What the encoding can carry faithfully: lengths and counts that fit their
// fixed-width prefixes. Every ledger held in memory satisfies this.
// ---------------------------------------------------------------------------
/// The UTF-8 form fits behind a 64-bit length.
pub open spec fn encodable_str(s: Seq<char>) -> bool {
    encode_utf8(s).len() <= u64::MAX
}

pub open spec fn encodable_tx(t: TxModel) -> bool {
    &&& encodable_str(t.txid)
    &&& encodable_str(t.from)
    &&& encodable_str(t.to)
}

pub open spec fn encodable_txs(ts: Seq<TxModel>) -> bool {
    &&& ts.len() <= usize::MAX
    &&& forall|i: int| 0 <= i < ts.len() ==> encodable_tx(#[trigger] ts[i])
}

pub open spec fn encodable_block(b: BlockModel) -> bool {
    &&& encodable_str(b.header.version)
    &&& match b.header.previous_block_hash {
        Some(s) => encodable_str(s),
        None => true,
    }
    &&& encodable_str(b.header.block_hash)
    &&& encodable_str(b.header.merkle_root_hash)
    &&& encodable_txs(b.transactions)
}

pub open spec fn encodable_chain(l: LedgerModel) -> bool {
    &&& l.chain.len() <= usize::MAX
    &&& forall|i: int| 0 <= i < l.chain.len() ==> encodable_block(#[trigger] l.chain[i])
    &&& encodable_txs(l.memory_pool)
}

// ---------------------------------------------------------------------------
// Reading the binary form back, stated over byte sequences and positions.
// ---------------------------------------------------------------------------
pub open spec fn spec_read_u64(d: Seq<u8>, pos: int) -> Option<(u64, int)> {
    if 0 <= pos && pos + 8 <= d.len() {
        Some((spec_u64_from_le_bytes(d.subrange(pos, pos + 8)), pos + 8))
    } else {
        None
    }
}

pub open spec fn spec_read_u128(d: Seq<u8>, pos: int) -> Option<(u128, int)> {
    if 0 <= pos && pos + 16 <= d.len() {
        Some((spec_u128_from_le_bytes(d.subrange(pos, pos + 16)), pos + 16))
    } else {
        None
    }
}

pub open spec fn spec_read_string(d: Seq<u8>, pos: int) -> Option<(Seq<char>, int)> {
    match spec_read_u64(d, pos) {
        None => None,
        Some((n, p)) => if p + n <= d.len() && valid_utf8(d.subrange(p, p + n)) {
            Some((decode_utf8(d.subrange(p, p + n)), p + n))
        } else {
            None
        },
    }
}

pub open spec fn spec_read_opt_string(d: Seq<u8>, pos: int) -> Option<(Option<Seq<char>>, int)> {
    if 0 <= pos && pos + 1 <= d.len() {
        if d[pos] == 0u8 {
            Some((None, pos + 1))
        } else if d[pos] == 1u8 {
            match spec_read_string(d, pos + 1) {
                None => None,
                Some((s, p)) => Some((Some(s), p)),
            }
        } else {
            None
        }
    } else {
        None
    }
}

pub open spec fn spec_read_amount(d: Seq<u8>, pos: int) -> Option<(Amount, int)> {
    match spec_read_u128(d, pos) {
        None => None,
        Some((mb, p1)) => match spec_read_u64(d, p1) {
            None => None,
            Some((sc, p2)) => if sc <= u32::MAX {
                Some((Amount { mantissa: mantissa_of_bits(mb), scale: sc as u32 }, p2))
            } else {
                None
            },
        },
    }
}

pub open spec fn spec_read_tx(d: Seq<u8>, pos: int) -> Option<(TxModel, int)> {
    match spec_read_string(d, pos) {
        None => None,
        Some((txid, p1)) => match spec_read_amount(d, p1) {
            None => None,
            Some((amount, p2)) => match spec_read_string(d, p2) {
                None => None,
                Some((from, p3)) => match spec_read_string(d, p3) {
                    None => None,
                    Some((to, p4)) => match spec_read_u64(d, p4) {
                        None => None,
                        Some((timestamp, p5)) => Some(
                            (TxModel { txid, amount, from, to, timestamp }, p5),
                        ),
                    },
                },
            },
        },
    }
}

pub open spec fn spec_read_txs(d: Seq<u8>, pos: int, count: int) -> Option<(Seq<TxModel>, int)>
    decreases count,
{
    if count <= 0 {
        Some((Seq::empty(), pos))
    } else {
        match spec_read_tx(d, pos) {
            None => None,
            Some((t, p)) => match spec_read_txs(d, p, count - 1) {
                None => None,
                Some((ts, p2)) => Some((seq![t] + ts, p2)),
            },
        }
    }
}

pub open spec fn spec_read_header(d: Seq<u8>, pos: int) -> Option<(HeaderModel, int)> {
    match spec_read_u64(d, pos) {
        None => None,
        Some((index, p1)) => match spec_read_string(d, p1) {
            None => None,
            Some((version, p2)) => match spec_read_opt_string(d, p2) {
                None => None,
                Some((previous_block_hash, p3)) => match spec_read_string(d, p3) {
                    None => None,
                    Some((block_hash, p4)) => match spec_read_string(d, p4) {
                        None => None,
                        Some((merkle_root_hash, p5)) => match spec_read_u64(d, p5) {
                            None => None,
                            Some((timestamp, p6)) => match spec_read_u64(d, p6) {
                                None => None,
                                Some((nonce, p7)) => match spec_read_u64(d, p7) {
                                    None => None,
                                    Some((difficulty, p8)) => if difficulty <= usize::MAX {
                                        Some(
                                            (
                                                HeaderModel {
                                                    index,
                                                    version,
                                                    previous_block_hash,
                                                    block_hash,
                                                    merkle_root_hash,
                                                    timestamp,
                                                    nonce,
                                                    difficulty: difficulty as usize,
                                                },
                                                p8,
                                            ),
                                        )
                                    } else {
                                        None
                                    },
                                },
                            },
                        },
                    },
                },
            },
        },
    }
}

pub open spec fn spec_read_block(d: Seq<u8>, pos: int) -> Option<(BlockModel, int)> {
    match spec_read_header(d, pos) {
        None => None,
        Some((header, p1)) => match spec_read_u64(d, p1) {
            None => None,
            Some((count, p2)) => if count <= usize::MAX {
                match spec_read_txs(d, p2, count as int) {
                    None => None,
                    Some((transactions, p3)) => Some((BlockModel { header, transactions }, p3)),
                }
            } else {
                None
            },
        },
    }
}

pub open spec fn spec_read_blocks(d: Seq<u8>, pos: int, count: int) -> Option<
    (Seq<BlockModel>, int),
>
    decreases count,
{
    if count <= 0 {
        Some((Seq::empty(), pos))
    } else {
        match spec_read_block(d, pos) {
            None => None,
            Some((b, p)) => match spec_read_blocks(d, p, count - 1) {
                None => None,
                Some((bs, p2)) => Some((seq![b] + bs, p2)),
            },
        }
    }
}

/// Reading a whole snapshot: the stored difficulty is read and then replaced
/// by the caller's runtime value; trailing bytes are rejected.
pub open spec fn spec_decode_chain(d: Seq<u8>, difficulty: usize) -> Option<LedgerModel> {
    match spec_read_u64(d, 0) {
        None => None,
        Some((_stored, p0)) => match spec_read_u64(d, p0) {
            None => None,
            Some((bcount, p1)) => if bcount <= usize::MAX {
                match spec_read_blocks(d, p1, bcount as int) {
                    None => None,
                    Some((chain, p2)) => match spec_read_u64(d, p2) {
                        None => None,
                        Some((tcount, p3)) => if tcount <= usize::MAX {
                            match spec_read_txs(d, p3, tcount as int) {
                                None => None,
                                Some((memory_pool, p4)) => if p4 == d.len() {
                                    Some(LedgerModel { chain, difficulty, memory_pool })
                                } else {
                                    None
                                },
                            }
                        } else {
                            None
                        },
                    },
                }
            } else {
                None
            },
        },
    }
}

// ---------------------------------------------------------------------------
// Reading back what was encoded yields what was encoded: one lemma per layer.
// ---------------------------------------------------------------------------
proof fn lemma_peel(d: Seq<u8>, pos: int, a: Seq<u8>, b: Seq<u8>)
    requires
        0 <= pos,
        pos + a.len() + b.len() <= d.len(),
        d.subrange(pos, pos + a.len() + b.len()) == a + b,
    ensures
        d.subrange(pos, pos + a.len()) == a,
        d.subrange(pos + a.len(), pos + a.len() + b.len()) == b,
{
    assert forall|i: int| 0 <= i < a.len() implies d.subrange(pos, pos + a.len())[i] == a[i] by {
        assert(d.subrange(pos, pos + a.len() + b.len())[i] == (a + b)[i]);
    }
    assert(d.subrange(pos, pos + a.len()) =~= a);
    assert forall|i: int|
        0 <= i < b.len() implies d.subrange(pos + a.len(), pos + a.len() + b.len())[i] == b[i] by {
        assert(d.subrange(pos, pos + a.len() + b.len())[a.len() + i] == (a + b)[a.len() + i]);
        assert(d.subrange(pos, pos + a.len() + b.len())[a.len() + i] == d[pos + a.len() + i]);
        assert(d.subrange(pos + a.len(), pos + a.len() + b.len())[i] == d[pos + a.len() + i]);
        assert((a + b)[a.len() + i] == b[i]);
    }
    assert(d.subrange(pos + a.len(), pos + a.len() + b.len()) =~= b);
}

proof fn lemma_read_u64_enc(d: Seq<u8>, pos: int, n: u64)
    requires
        0 <= pos,
        pos + enc_u64(n).len() <= d.len(),
        d.subrange(pos, pos + enc_u64(n).len()) == enc_u64(n),
    ensures
        enc_u64(n).len() == 8,
        spec_read_u64(d, pos) == Some((n, pos + 8)),
{
    lemma_auto_spec_u64_to_from_le_bytes();
}

proof fn lemma_read_u128_enc(d: Seq<u8>, pos: int, n: u128)
    requires
        0 <= pos,
        pos + enc_u128(n).len() <= d.len(),
        d.subrange(pos, pos + enc_u128(n).len()) == enc_u128(n),
    ensures
        enc_u128(n).len() == 16,
        spec_read_u128(d, pos) == Some((n, pos + 16)),
{
    lemma_auto_spec_u128_to_from_le_bytes();
}

proof fn lemma_read_string_enc(d: Seq<u8>, pos: int, s: Seq<char>)
    requires
        encodable_str(s),
        0 <= pos,
        pos + enc_string(s).len() <= d.len(),
        d.subrange(pos, pos + enc_string(s).len()) == enc_string(s),
    ensures
        spec_read_string(d, pos) == Some((s, pos + enc_string(s).len())),
{
    lemma_auto_spec_u64_to_from_le_bytes();
    let bytes = encode_utf8(s);
    let lenb = enc_u64(bytes.len() as u64);
    lemma_peel(d, pos, lenb, bytes);
    lemma_read_u64_enc(d, pos, bytes.len() as u64);
    encode_utf8_valid_utf8(s);
    encode_utf8_decode_utf8(s);
    assert(d.subrange(pos + 8, pos + 8 + bytes.len()) == bytes);
}

proof fn lemma_read_opt_string_enc(d: Seq<u8>, pos: int, o: Option<Seq<char>>)
    requires
        match o {
            Some(s) => encodable_str(s),
            None => true,
        },
        0 <= pos,
        pos + enc_opt_string(o).len() <= d.len(),
        d.subrange(pos, pos + enc_opt_string(o).len()) == enc_opt_string(o),
    ensures
        spec_read_opt_string(d, pos) == Some((o, pos + enc_opt_string(o).len())),
{
    match o {
        None => {
            assert(d[pos] == enc_opt_string(o)[0]);
        },
        Some(s) => {
            lemma_peel(d, pos, seq![1u8], enc_string(s));
            assert(d[pos] == d.subrange(pos, pos + 1)[0]);
            lemma_read_string_enc(d, pos + 1, s);
        },
    }
}

proof fn lemma_read_amount_enc(d: Seq<u8>, pos: int, a: Amount)
    requires
        0 <= pos,
        pos + enc_amount(a).len() <= d.len(),
        d.subrange(pos, pos + enc_amount(a).len()) == enc_amount(a),
    ensures
        spec_read_amount(d, pos) == Some((a, pos + enc_amount(a).len())),
{
    lemma_auto_spec_u128_to_from_le_bytes();
    lemma_peel(d, pos, enc_u128(mantissa_bits(a.mantissa)), enc_u64(a.scale as u64));
    lemma_read_u128_enc(d, pos, mantissa_bits(a.mantissa));
    lemma_read_u64_enc(d, pos + 16, a.scale as u64);
    assert(mantissa_of_bits(mantissa_bits(a.mantissa)) == a.mantissa);
    assert((a.scale as u64) as u32 == a.scale);
}

proof fn lemma_read_tx_enc(d: Seq<u8>, pos: int, t: TxModel)
    requires
        encodable_tx(t),
        0 <= pos,
        pos + enc_tx(t).len() <= d.len(),
        d.subrange(pos, pos + enc_tx(t).len()) == enc_tx(t),
    ensures
        spec_read_tx(d, pos) == Some((t, pos + enc_tx(t).len())),
{
    let f1 = enc_string(t.txid);
    let f2 = enc_amount(t.amount);
    let f3 = enc_string(t.from);
    let f4 = enc_string(t.to);
    let f5 = enc_u64(t.timestamp);
    assert(enc_tx(t) =~= f1 + (f2 + (f3 + (f4 + f5))));
    lemma_peel(d, pos, f1, f2 + (f3 + (f4 + f5)));
    lemma_read_string_enc(d, pos, t.txid);
    let p1 = pos + f1.len();
    lemma_peel(d, p1, f2, f3 + (f4 + f5));
    lemma_read_amount_enc(d, p1, t.amount);
    let p2 = p1 + f2.len();
    lemma_peel(d, p2, f3, f4 + f5);
    lemma_read_string_enc(d, p2, t.from);
    let p3 = p2 + f3.len();
    lemma_peel(d, p3, f4, f5);
    lemma_read_string_enc(d, p3, t.to);
    let p4 = p3 + f4.len();
    lemma_read_u64_enc(d, p4, t.timestamp);
}

proof fn lemma_read_txs_enc(d: Seq<u8>, pos: int, ts: Seq<TxModel>)
    requires
        encodable_txs(ts),
        0 <= pos,
        pos + enc_txs(ts).len() <= d.len(),
        d.subrange(pos, pos + enc_txs(ts).len()) == enc_txs(ts),
    ensures
        spec_read_txs(d, pos, ts.len() as int) == Some((ts, pos + enc_txs(ts).len())),
    decreases ts.len(),
{
    if ts.len() == 0 {
        assert(ts =~= Seq::<TxModel>::empty());
    } else {
        let head = enc_tx(ts.first());
        let tail = enc_txs(ts.drop_first());
        lemma_peel(d, pos, head, tail);
        assert(encodable_tx(ts.first())) by {
            assert(ts[0] == ts.first());
        }
        lemma_read_tx_enc(d, pos, ts.first());
        assert(encodable_txs(ts.drop_first())) by {
            assert(forall|i: int|
                0 <= i < ts.drop_first().len() ==> #[trigger] ts.drop_first()[i] == ts[i + 1]);
        }
        lemma_read_txs_enc(d, pos + head.len(), ts.drop_first());
        assert(seq![ts.first()] + ts.drop_first() =~= ts);
    }
}

#[verifier::rlimit(100)]
proof fn lemma_read_header_enc(d: Seq<u8>, pos: int, h: HeaderModel)
    requires
        encodable_str(h.version),
        match h.previous_block_hash {
            Some(s) => encodable_str(s),
            None => true,
        },
        encodable_str(h.block_hash),
        encodable_str(h.merkle_root_hash),
        0 <= pos,
        pos + enc_header(h).len() <= d.len(),
        d.subrange(pos, pos + enc_header(h).len()) == enc_header(h),
    ensures
        spec_read_header(d, pos) == Some((h, pos + enc_header(h).len())),
{
    let f1 = enc_u64(h.index);
    let f2 = enc_string(h.version);
    let f3 = enc_opt_string(h.previous_block_hash);
    let f4 = enc_string(h.block_hash);
    let f5 = enc_string(h.merkle_root_hash);
    let f6 = enc_u64(h.timestamp);
    let f7 = enc_u64(h.nonce);
    let f8 = enc_u64(h.difficulty as u64);
    assert(enc_header(h) =~= f1 + (f2 + (f3 + (f4 + (f5 + (f6 + (f7 + f8)))))));
    lemma_peel(d, pos, f1, f2 + (f3 + (f4 + (f5 + (f6 + (f7 + f8))))));
    lemma_read_u64_enc(d, pos, h.index);
    let p1 = pos + f1.len();
    lemma_peel(d, p1, f2, f3 + (f4 + (f5 + (f6 + (f7 + f8)))));
    lemma_read_string_enc(d, p1, h.version);
    let p2 = p1 + f2.len();
    lemma_peel(d, p2, f3, f4 + (f5 + (f6 + (f7 + f8))));
    lemma_read_opt_string_enc(d, p2, h.previous_block_hash);
    let p3 = p2 + f3.len();
    lemma_peel(d, p3, f4, f5 + (f6 + (f7 + f8)));
    lemma_read_string_enc(d, p3, h.block_hash);
    let p4 = p3 + f4.len();
    lemma_peel(d, p4, f5, f6 + (f7 + f8));
    lemma_read_string_enc(d, p4, h.merkle_root_hash);
    let p5 = p4 + f5.len();
    lemma_peel(d, p5, f6, f7 + f8);
    lemma_read_u64_enc(d, p5, h.timestamp);
    let p6 = p5 + f6.len();
    lemma_peel(d, p6, f7, f8);
    lemma_read_u64_enc(d, p6, h.nonce);
    let p7 = p6 + f7.len();
    lemma_read_u64_enc(d, p7, h.difficulty as u64);
    assert((h.difficulty as u64) as usize == h.difficulty);
}

proof fn lemma_read_block_enc(d: Seq<u8>, pos: int, b: BlockModel)
    requires
        encodable_block(b),
        0 <= pos,
        pos + enc_block(b).len() <= d.len(),
        d.subrange(pos, pos + enc_block(b).len()) == enc_block(b),
    ensures
        spec_read_block(d, pos) == Some((b, pos + enc_block(b).len())),
{
    let f1 = enc_header(b.header);
    let f2 = enc_u64(b.transactions.len() as u64);
    let f3 = enc_txs(b.transactions);
    assert(enc_block(b) =~= f1 + (f2 + f3));
    lemma_peel(d, pos, f1, f2 + f3);
    lemma_read_header_enc(d, pos, b.header);
    let p1 = pos + f1.len();
    lemma_peel(d, p1, f2, f3);
    lemma_read_u64_enc(d, p1, b.transactions.len() as u64);
    let p2 = p1 + f2.len();
    lemma_read_txs_enc(d, p2, b.transactions);
    assert((b.transactions.len() as u64) as int == b.transactions.len() as int);
}

proof fn lemma_read_blocks_enc(d: Seq<u8>, pos: int, bs: Seq<BlockModel>)
    requires
        forall|i: int| 0 <= i < bs.len() ==> encodable_block(#[trigger] bs[i]),
        0 <= pos,
        pos + enc_blocks(bs).len() <= d.len(),
        d.subrange(pos, pos + enc_blocks(bs).len()) == enc_blocks(bs),
    ensures
        spec_read_blocks(d, pos, bs.len() as int) == Some((bs, pos + enc_blocks(bs).len())),
    decreases bs.len(),
{
    if bs.len() == 0 {
        assert(bs =~= Seq::<BlockModel>::empty());
    } else {
        let head = enc_block(bs.first());
        let tail = enc_blocks(bs.drop_first());
        lemma_peel(d, pos, head, tail);
        assert(encodable_block(bs.first())) by {
            assert(bs[0] == bs.first());
        }
        lemma_read_block_enc(d, pos, bs.first());
        lemma_read_blocks_enc(d, pos + head.len(), bs.drop_first());
        assert(seq![bs.first()] + bs.drop_first() =~= bs);
    }
}

/// Saving and loading round-trips: decoding the encoding of any ledger yields
/// the same chain and pool, with the difficulty replaced by the caller's
/// runtime value.
#[verifier::rlimit(100)]
pub proof fn lemma_codec_round_trip(l: LedgerModel, difficulty: usize)
    requires
        encodable_chain(l),
    ensures
        spec_decode_chain(spec_encode_chain(l), difficulty) == Some(
            LedgerModel { chain: l.chain, difficulty, memory_pool: l.memory_pool },
        ),
{
    let d = spec_encode_chain(l);
    let f1 = enc_u64(l.difficulty as u64);
    let f2 = enc_u64(l.chain.len() as u64);
    let f3 = enc_blocks(l.chain);
    let f4 = enc_u64(l.memory_pool.len() as u64);
    let f5 = enc_txs(l.memory_pool);
    assert(d =~= f1 + (f2 + (f3 + (f4 + f5))));
    assert(d.subrange(0, d.len() as int) =~= d);
    lemma_peel(d, 0, f1, f2 + (f3 + (f4 + f5)));
    lemma_read_u64_enc(d, 0, l.difficulty as u64);
    let p1 = f1.len() as int;
    lemma_peel(d, p1, f2, f3 + (f4 + f5));
    lemma_read_u64_enc(d, p1, l.chain.len() as u64);
    let p2 = p1 + f2.len();
    lemma_peel(d, p2, f3, f4 + f5);
    lemma_read_blocks_enc(d, p2, l.chain);
    let p3 = p2 + f3.len();
    lemma_peel(d, p3, f4, f5);
    lemma_read_u64_enc(d, p3, l.memory_pool.len() as u64);
    let p4 = p3 + f4.len();
    lemma_read_txs_enc(d, p4, l.memory_pool);
}

// ---------------------------------------------------------------------------
// Writing the binary form.
// ---------------------------------------------------------------------------
proof fn lemma_enc_txs_push(ts: Seq<TxModel>, t: TxModel)
    ensures
        enc_txs(ts.push(t)) == enc_txs(ts) + enc_tx(t),
    decreases ts.len(),
{
    if ts.len() == 0 {
        assert(ts.push(t).first() == t);
        assert(ts.push(t).drop_first() =~= Seq::<TxModel>::empty());
        assert(enc_txs(Seq::<TxModel>::empty()) =~= Seq::<u8>::empty());
        assert(enc_txs(ts) =~= Seq::<u8>::empty());
        assert(enc_txs(ts.push(t)) =~= enc_txs(ts) + enc_tx(t));
    } else {
        assert(ts.push(t).first() == ts.first());
        assert(ts.push(t).drop_first() =~= ts.drop_first().push(t));
        lemma_enc_txs_push(ts.drop_first(), t);
        assert(enc_txs(ts.push(t)) =~= enc_txs(ts) + enc_tx(t));
    }
}

proof fn lemma_enc_blocks_push(bs: Seq<BlockModel>, b: BlockModel)
    ensures
        enc_blocks(bs.push(b)) == enc_blocks(bs) + enc_block(b),
    decreases bs.len(),
{
    if bs.len() == 0 {
        assert(bs.push(b).first() == b);
        assert(bs.push(b).drop_first() =~= Seq::<BlockModel>::empty());
        assert(enc_blocks(Seq::<BlockModel>::empty()) =~= Seq::<u8>::empty());
        assert(enc_blocks(bs) =~= Seq::<u8>::empty());
        assert(enc_blocks(bs.push(b)) =~= enc_blocks(bs) + enc_block(b));
    } else {
        assert(bs.push(b).first() == bs.first());
        assert(bs.push(b).drop_first() =~= bs.drop_first().push(b));
        lemma_enc_blocks_push(bs.drop_first(), b);
        assert(enc_blocks(bs.push(b)) =~= enc_blocks(bs) + enc_block(b));
    }
}

fn write_u64(out: &mut Vec<u8>, n: u64)
    ensures
        final(out)@ == old(out)@ + enc_u64(n),
{
    let mut b = u64_to_le_bytes(n);
    out.append(&mut b);
}

fn write_u128(out: &mut Vec<u8>, n: u128)
    ensures
        final(out)@ == old(out)@ + enc_u128(n),
{
    let mut b = u128_to_le_bytes(n);
    out.append(&mut b);
}

fn write_string(out: &mut Vec<u8>, s: &String)
    ensures
        final(out)@ == old(out)@ + enc_string(s@),
{
    let mut bytes = s.as_str().as_bytes_vec();
    write_u64(out, bytes.len() as u64);
    out.append(&mut bytes);
    proof {
        assert(out@ =~= old(out)@ + enc_string(s@));
    }
}

fn write_opt_string(out: &mut Vec<u8>, o: &Option<String>)
    ensures
        final(out)@ == old(out)@ + enc_opt_string(opt_view(*o)),
{
    match o {
        None => {
            out.push(0u8);
            proof {
                assert(out@ =~= old(out)@ + seq![0u8]);
            }
        },
        Some(s) => {
            out.push(1u8);
            write_string(out, s);
            proof {
                assert(out@ =~= old(out)@ + enc_opt_string(opt_view(*o)));
            }
        },
    }
}

fn write_amount(out: &mut Vec<u8>, a: &Amount)
    ensures
        final(out)@ == old(out)@ + enc_amount(*a),
{
    let bits: u128 = if a.mantissa >= 0 {
        a.mantissa as u128
    } else {
        u128::MAX - ((-(a.mantissa + 1)) as u128)
    };
    proof {
        assert(bits == mantissa_bits(a.mantissa));
    }
    write_u128(out, bits);
    write_u64(out, a.scale as u64);
    proof {
        assert(out@ =~= old(out)@ + enc_amount(*a));
    }
}

fn write_tx(out: &mut Vec<u8>, t: &Transaction)
    ensures
        final(out)@ == old(out)@ + enc_tx(t@),
{
    write_string(out, &t.txid);
    write_amount(out, &t.amount);
    write_string(out, &t.from);
    write_string(out, &t.to);
    write_u64(out, t.timestamp);
    proof {
        assert(out@ =~= old(out)@ + enc_tx(t@));
    }
}

fn write_txs(out: &mut Vec<u8>, txs: &Vec<Transaction>)
    ensures
        final(out)@ == old(out)@ + enc_txs(txs_model(txs@)),
{
    let ghost m = txs_model(txs@);
    let mut i: usize = 0;
    while i < txs.len()
        invariant
            i <= txs@.len(),
            m == txs_model(txs@),
            out@ == old(out)@ + enc_txs(m.take(i as int)),
        decreases txs@.len() - i,
    {
        write_tx(out, &txs[i]);
        proof {
            assert(m.take(i as int + 1) =~= m.take(i as int).push(m[i as int]));
            lemma_enc_txs_push(m.take(i as int), m[i as int]);
            assert(m[i as int] == txs@[i as int]@);
            assert(out@ =~= old(out)@ + enc_txs(m.take(i as int + 1)));
        }
        i += 1;
    }
    proof {
        assert(m.take(txs@.len() as int) =~= m);
    }
}

fn write_header(out: &mut Vec<u8>, h: &BlockHeader)
    ensures
        final(out)@ == old(out)@ + enc_header(h@),
{
    write_u64(out, h.index);
    write_string(out, &h.version);
    write_opt_string(out, &h.previous_block_hash);
    write_string(out, &h.block_hash);
    write_string(out, &h.merkle_root_hash);
    write_u64(out, h.timestamp);
    write_u64(out, h.nonce);
    write_u64(out, h.difficulty as u64);
    proof {
        assert(out@ =~= old(out)@ + enc_header(h@));
    }
}

fn write_block(out: &mut Vec<u8>, b: &Block)
    ensures
        final(out)@ == old(out)@ + enc_block(b@),
{
    write_header(out, &b.header);
    write_u64(out, b.transactions.len() as u64);
    write_txs(out, &b.transactions);
    proof {
        assert(out@ =~= old(out)@ + enc_block(b@));
    }
}

fn write_blocks(out: &mut Vec<u8>, blocks: &Vec<Block>)
    ensures
        final(out)@ == old(out)@ + enc_blocks(blocks_model(blocks@)),
{
    let ghost m = blocks_model(blocks@);
    let mut i: usize = 0;
    while i < blocks.len()
        invariant
            i <= blocks@.len(),
            m == blocks_model(blocks@),
            out@ == old(out)@ + enc_blocks(m.take(i as int)),
        decreases blocks@.len() - i,
    {
        write_block(out, &blocks[i]);
        proof {
            assert(m.take(i as int + 1) =~= m.take(i as int).push(m[i as int]));
            lemma_enc_blocks_push(m.take(i as int), m[i as int]);
            assert(m[i as int] == blocks@[i as int]@);
            assert(out@ =~= old(out)@ + enc_blocks(m.take(i as int + 1)));
        }
        i += 1;
    }
    proof {
        assert(m.take(blocks@.len() as int) =~= m);
    }
}

/// Serializes the whole ledger — chain, difficulty and pool — into the binary
/// snapshot form.
pub fn encode_chain(l: &BlockChain) -> (r: Vec<u8>)
    ensures
        r@ == spec_encode_chain(l@),
{
    let mut out: Vec<u8> = Vec::new();
    write_u64(&mut out, l.difficulty as u64);
    write_u64(&mut out, l.chain.len() as u64);
    write_blocks(&mut out, &l.chain);
    write_u64(&mut out, l.memory_pool.len() as u64);
    write_txs(&mut out, &l.memory_pool);
    proof {
        assert(out@ =~= spec_encode_chain(l@));
    }
    out
}

// ---------------------------------------------------------------------------
// Reading the binary form, each reader proved against its specification.
// ---------------------------------------------------------------------------
/// Relies on `String::from_utf8`: it succeeds exactly on valid UTF-8 input
/// and returns the string those bytes spell.
#[verifier::external_body]
fn string_from_utf8(bytes: Vec<u8>) -> (r: Option<String>)
    ensures
        match r {
            Some(s) => encode_utf8(s@) == bytes@,
            None => !valid_utf8(bytes@),
        },
{
    match String::from_utf8(bytes) {
        Ok(s) => Some(s),
        Err(_) => None,
    }
}

fn read_u64(d: &Vec<u8>, pos: usize) -> (r: Option<(u64, usize)>)
    ensures
        match r {
            Some((x, p)) => spec_read_u64(d@, pos as int) == Some((x, p as int)) && pos <= p
                <= d@.len(),
            None => spec_read_u64(d@, pos as int) is None,
        },
{
    if pos <= d.len() && d.len() - pos >= 8 {
        let s = slice_subrange(d.as_slice(), pos, pos + 8);
        let x = u64_from_le_bytes(s);
        Some((x, pos + 8))
    } else {
        None
    }
}

fn read_u128(d: &Vec<u8>, pos: usize) -> (r: Option<(u128, usize)>)
    ensures
        match r {
            Some((x, p)) => spec_read_u128(d@, pos as int) == Some((x, p as int)) && pos <= p
                <= d@.len(),
            None => spec_read_u128(d@, pos as int) is None,
        },
{
    if pos <= d.len() && d.len() - pos >= 16 {
        let s = slice_subrange(d.as_slice(), pos, pos + 16);
        let x = u128_from_le_bytes(s);
        Some((x, pos + 16))
    } else {
        None
    }
}

fn read_string(d: &Vec<u8>, pos: usize) -> (r: Option<(String, usize)>)
    ensures
        match r {
            Some((s, p)) => spec_read_string(d@, pos as int) == Some((s@, p as int)) && pos <= p
                <= d@.len(),
            None => spec_read_string(d@, pos as int) is None,
        },
{
    match read_u64(d, pos) {
        None => None,
        Some((n, p1)) => if n <= (d.len() - p1) as u64 {
            let nn = n as usize;
            let bytes = slice_to_vec(slice_subrange(d.as_slice(), p1, p1 + nn));
            match string_from_utf8(bytes) {
                Some(s) => {
                    proof {
                        encode_utf8_valid_utf8(s@);
                        encode_utf8_decode_utf8(s@);
                    }
                    Some((s, p1 + nn))
                },
                None => None,
            }
        } else {
            None
        },
    }
}

fn read_opt_string(d: &Vec<u8>, pos: usize) -> (r: Option<(Option<String>, usize)>)
    ensures
        match r {
            Some((o, p)) => spec_read_opt_string(d@, pos as int) == Some((opt_view(o), p as int))
                && pos <= p <= d@.len(),
            None => spec_read_opt_string(d@, pos as int) is None,
        },
{
    if pos < d.len() {
        let tag = d[pos];
        if tag == 0 {
            Some((None, pos + 1))
        } else if tag == 1 {
            match read_string(d, pos + 1) {
                None => None,
                Some((s, p)) => Some((Some(s), p)),
            }
        } else {
            None
        }
    } else {
        None
    }
}

fn read_amount(d: &Vec<u8>, pos: usize) -> (r: Option<(Amount, usize)>)
    ensures
        match r {
            Some((a, p)) => spec_read_amount(d@, pos as int) == Some((a, p as int)) && pos <= p
                <= d@.len(),
            None => spec_read_amount(d@, pos as int) is None,
        },
{
    match read_u128(d, pos) {
        None => None,
        Some((mb, p1)) => match read_u64(d, p1) {
            None => None,
            Some((sc, p2)) => if sc <= u32::MAX as u64 {
                let mantissa: i128 = if mb <= i128::MAX as u128 {
                    mb as i128
                } else {
                    (-((u128::MAX - mb) as i128)) - 1
                };
                proof {
                    assert(mantissa == mantissa_of_bits(mb));
                }
                Some((Amount { mantissa, scale: sc as u32 }, p2))
            } else {
                None
            },
        },
    }
}

fn read_tx(d: &Vec<u8>, pos: usize) -> (r: Option<(Transaction, usize)>)
    ensures
        match r {
            Some((t, p)) => spec_read_tx(d@, pos as int) == Some((t@, p as int)) && pos <= p
                <= d@.len(),
            None => spec_read_tx(d@, pos as int) is None,
        },
{
    match read_string(d, pos) {
        None => None,
        Some((txid, p1)) => match read_amount(d, p1) {
            None => None,
            Some((amount, p2)) => match read_string(d, p2) {
                None => None,
                Some((from, p3)) => match read_string(d, p3) {
                    None => None,
                    Some((to, p4)) => match read_u64(d, p4) {
                        None => None,
                        Some((timestamp, p5)) => Some(
                            (Transaction { txid, amount, from, to, timestamp }, p5),
                        ),
                    },
                },
            },
        },
    }
}

fn read_txs(d: &Vec<u8>, pos: usize, count: u64) -> (r: Option<(Vec<Transaction>, usize)>)
    requires
        pos <= d@.len(),
    ensures
        match r {
            Some((ts, p)) => spec_read_txs(d@, pos as int, count as int) == Some(
                (txs_model(ts@), p as int),
            ) && pos <= p <= d@.len(),
            None => spec_read_txs(d@, pos as int, count as int) is None,
        },
    decreases count,
{
    if count == 0 {
        proof {
            assert(txs_model(Seq::<Transaction>::empty()) =~= Seq::<TxModel>::empty());
        }
        Some((Vec::new(), pos))
    } else {
        match read_tx(d, pos) {
            None => None,
            Some((t, p)) => match read_txs(d, p, count - 1) {
                None => None,
                Some((mut ts, p2)) => {
                    let ghost mts = txs_model(ts@);
                    ts.insert(0, t);
                    proof {
                        assert(txs_model(ts@) =~= seq![t@] + mts);
                    }
                    Some((ts, p2))
                },
            },
        }
    }
}

fn read_header(d: &Vec<u8>, pos: usize) -> (r: Option<(BlockHeader, usize)>)
    ensures
        match r {
            Some((h, p)) => spec_read_header(d@, pos as int) == Some((h@, p as int)) && pos <= p
                <= d@.len(),
            None => spec_read_header(d@, pos as int) is None,
        },
{
    match read_u64(d, pos) {
        None => None,
        Some((index, p1)) => match read_string(d, p1) {
            None => None,
            Some((version, p2)) => match read_opt_string(d, p2) {
                None => None,
                Some((previous_block_hash, p3)) => match read_string(d, p3) {
                    None => None,
                    Some((block_hash, p4)) => match read_string(d, p4) {
                        None => None,
                        Some((merkle_root_hash, p5)) => match read_u64(d, p5) {
                            None => None,
                            Some((timestamp, p6)) => match read_u64(d, p6) {
                                None => None,
                                Some((nonce, p7)) => match read_u64(d, p7) {
                                    None => None,
                                    Some((difficulty, p8)) => if difficulty <= usize::MAX as u64 {
                                        Some(
                                            (
                                                BlockHeader {
                                                    index,
                                                    version,
                                                    previous_block_hash,
                                                    block_hash,
                                                    merkle_root_hash,
                                                    timestamp,
                                                    nonce,
                                                    difficulty: difficulty as usize,
                                                },
                                                p8,
                                            ),
                                        )
                                    } else {
                                        None
                                    },
                                },
                            },
                        },
                    },
                },
            },
        },
    }
}

fn read_block(d: &Vec<u8>, pos: usize) -> (r: Option<(Block, usize)>)
    ensures
        match r {
            Some((b, p)) => spec_read_block(d@, pos as int) == Some((b@, p as int)) && pos <= p
                <= d@.len(),
            None => spec_read_block(d@, pos as int) is None,
        },
{
    match read_header(d, pos) {
        None => None,
        Some((header, p1)) => match read_u64(d, p1) {
            None => None,
            Some((count, p2)) => if count <= usize::MAX as u64 {
                match read_txs(d, p2, count) {
                    None => None,
                    Some((transactions, p3)) => Some((Block { header, transactions }, p3)),
                }
            } else {
                None
            },
        },
    }
}

fn read_blocks(d: &Vec<u8>, pos: usize, count: u64) -> (r: Option<(Vec<Block>, usize)>)
    requires
        pos <= d@.len(),
    ensures
        match r {
            Some((bs, p)) => spec_read_blocks(d@, pos as int, count as int) == Some(
                (blocks_model(bs@), p as int),
            ) && pos <= p <= d@.len(),
            None => spec_read_blocks(d@, pos as int, count as int) is None,
        },
    decreases count,
{
    if count == 0 {
        proof {
            assert(blocks_model(Seq::<Block>::empty()) =~= Seq::<BlockModel>::empty());
        }
        Some((Vec::new(), pos))
    } else {
        match read_block(d, pos) {
            None => None,
            Some((b, p)) => match read_blocks(d, p, count - 1) {
                None => None,
                Some((mut bs, p2)) => {
                    let ghost mbs = blocks_model(bs@);
                    bs.insert(0, b);
                    proof {
                        assert(blocks_model(bs@) =~= seq![b@] + mbs);
                    }
                    Some((bs, p2))
                },
            },
        }
    }
}

/// Decodes a binary snapshot back into a ledger, overriding the stored
/// difficulty with the caller's runtime value; a snapshot that cannot be
/// decoded — truncated, malformed, or carrying trailing bytes — is rejected
/// with `PersistenceError`, exactly then.
pub fn decode_chain(data: &Vec<u8>, difficulty: usize) -> (r: Result<BlockChain, LedgerError>)
    ensures
        match r {
            Ok(l) => spec_decode_chain(data@, difficulty) == Some(l@) && l@.difficulty
                == difficulty,
            Err(e) => e == LedgerError::PersistenceError && spec_decode_chain(data@, difficulty)
                is None,
        },
{
    let r0 = read_u64(data, 0);
    match r0 {
        None => Err(LedgerError::PersistenceError),
        Some((_stored, p0)) => match read_u64(data, p0) {
            None => Err(LedgerError::PersistenceError),
            Some((bcount, p1)) => if bcount <= usize::MAX as u64 {
                match read_blocks(data, p1, bcount) {
                    None => Err(LedgerError::PersistenceError),
                    Some((chain, p2)) => match read_u64(data, p2) {
                        None => Err(LedgerError::PersistenceError),
                        Some((tcount, p3)) => if tcount <= usize::MAX as u64 {
                            match read_txs(data, p3, tcount) {
                                None => Err(LedgerError::PersistenceError),
                                Some((memory_pool, p4)) => if p4 == data.len() {
                                    let l = BlockChain { chain, difficulty, memory_pool };
                                    proof {
                                        assert(l@ =~= spec_decode_chain(
                                            data@,
                                            difficulty,
                                        )->Some_0);
                                    }
                                    Ok(l)
                                } else {
                                    Err(LedgerError::PersistenceError)
                                },
                            }
                        } else {
                            Err(LedgerError::PersistenceError)
                        },
                    },
                }
            } else {
                Err(LedgerError::PersistenceError)
            },
        },
    }
}

} // verus!
