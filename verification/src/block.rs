use vstd::prelude::*;
use vstd::string::{StrSliceExecFns, StringExecFns};
use vstd::utf8::encode_utf8;

use crate::amount::{decimal_render, render_amount};
use crate::clock::get_timestamp;
use crate::hashing::{generate_sha256_hash, spec_sha256_hex};
use crate::numerals::{dec_str, u64_to_string};
use crate::transaction::{Transaction, TxModel};

verus! {

/// The schema version stamped into every newly sealed block header.
pub open spec fn schema_version() -> Seq<char> {
    "0.1.0"@
}

/// The mathematical content of a block header.
#[verifier::ext_equal]
pub ghost struct HeaderModel {
    pub index: u64,
    pub version: Seq<char>,
    pub previous_block_hash: Option<Seq<char>>,
    pub block_hash: Seq<char>,
    pub merkle_root_hash: Seq<char>,
    pub timestamp: u64,
    pub nonce: u64,
    pub difficulty: usize,
}

/// The mathematical content of a block: its header and the transactions it
/// commits, in order.
#[verifier::ext_equal]
pub ghost struct BlockModel {
    pub header: HeaderModel,
    pub transactions: Seq<TxModel>,
}

/// Header of a sealed block: linkage, digest of the committed transactions,
/// and the proof-of-work nonce.
#[derive(Debug)]
pub struct BlockHeader {
    pub index: u64,
    pub version: String,
    pub previous_block_hash: Option<String>,
    pub block_hash: String,
    pub merkle_root_hash: String,
    pub timestamp: u64,
    pub nonce: u64,
    pub difficulty: usize,
}

/// The view of an optional hash.
pub open spec fn opt_view(o: Option<String>) -> Option<Seq<char>> {
    match o {
        Some(h) => Some(h@),
        None => None,
    }
}

impl View for BlockHeader {
    type V = HeaderModel;

    open spec fn view(&self) -> HeaderModel {
        HeaderModel {
            index: self.index,
            version: self.version@,
            previous_block_hash: opt_view(self.previous_block_hash),
            block_hash: self.block_hash@,
            merkle_root_hash: self.merkle_root_hash@,
            timestamp: self.timestamp,
            nonce: self.nonce,
            difficulty: self.difficulty,
        }
    }
}

/// A block: immutable once mined.
#[derive(Debug)]
pub struct Block {
    pub header: BlockHeader,
    pub transactions: Vec<Transaction>,
}

/// The views of a sequence of transactions.
pub open spec fn txs_model(txs: Seq<Transaction>) -> Seq<TxModel> {
    txs.map_values(|t: Transaction| t@)
}

impl View for Block {
    type V = BlockModel;

    open spec fn view(&self) -> BlockModel {
        BlockModel { header: self.header@, transactions: txs_model(self.transactions@) }
    }
}

/// One transaction's contribution to the merkle-style digest: id, amount,
/// sender, receiver and creation time, concatenated.
pub open spec fn tx_record(t: TxModel) -> Seq<char> {
    t.txid + decimal_render(t.amount.mantissa, t.amount.scale) + t.from + t.to + dec_str(
        t.timestamp as int,
    )
}

/// The digest input: each transaction's record, in commit order.
pub open spec fn merkle_input(txs: Seq<TxModel>) -> Seq<char>
    decreases txs.len(),
{
    if txs.len() == 0 {
        Seq::empty()
    } else {
        merkle_input(txs.drop_last()) + tx_record(txs.last())
    }
}

/// The merkle-style root a block over `txs` must carry: the hash of the
/// concatenated records (the empty list hashes the empty string).
pub open spec fn spec_merkle_root(txs: Seq<TxModel>) -> Seq<char> {
    spec_sha256_hex(encode_utf8(merkle_input(txs)))
}

/// The proof-of-work preimage: index, creation time, merkle root and nonce.
pub open spec fn pow_preimage(
    index: u64,
    timestamp: u64,
    merkle_root_hash: Seq<char>,
    nonce: u64,
) -> Seq<char> {
    dec_str(index as int) + dec_str(timestamp as int) + merkle_root_hash + dec_str(nonce as int)
}

/// The proof-of-work hash over the preimage.
pub open spec fn pow_hash(
    index: u64,
    timestamp: u64,
    merkle_root_hash: Seq<char>,
    nonce: u64,
) -> Seq<char> {
    spec_sha256_hex(encode_utf8(pow_preimage(index, timestamp, merkle_root_hash, nonce)))
}

/// The first `d` characters exist and are all `'0'`.
pub open spec fn zero_prefix(s: Seq<char>, d: int) -> bool {
    &&& d <= s.len()
    &&& forall|i: int| 0 <= i < d ==> s[i] == '0'
}

/// The whole 64-bit nonce space fails over this preimage: no nonce at all
/// yields a hash with `difficulty` leading zeros.
pub open spec fn pow_unsatisfiable(
    index: u64,
    timestamp: u64,
    merkle_root_hash: Seq<char>,
    difficulty: usize,
) -> bool {
    forall|n: u64|
        !zero_prefix(
            #[trigger] pow_hash(index, timestamp, merkle_root_hash, n),
            difficulty as int,
        )
}

/// Every amount committed by the sequence lies in the decimal domain.
pub open spec fn amounts_valid(txs: Seq<Transaction>) -> bool {
    forall|i: int| 0 <= i < txs.len() ==> (#[trigger] txs[i]).amount.valid()
}

/// Computes the proof-of-work hash over index, creation time, merkle root and
/// nonce.
pub fn compute_pow_hash(index: u64, timestamp: u64, merkle_root_hash: &String, nonce: u64) -> (r:
    String)
    ensures
        r@ == pow_hash(index, timestamp, merkle_root_hash@, nonce),
{
    let mut s = u64_to_string(index);
    let ts = u64_to_string(timestamp);
    s.append(ts.as_str());
    s.append(merkle_root_hash.as_str());
    let n = u64_to_string(nonce);
    s.append(n.as_str());
    generate_sha256_hash(s)
}

/// Tests whether the first `d` characters of `h` are all `'0'`.
pub fn has_zero_prefix(h: &str, d: usize) -> (r: bool)
    ensures
        r == zero_prefix(h@, d as int),
{
    let n = h.unicode_len();
    if d > n {
        return false;
    }
    let mut i: usize = 0;
    while i < d
        invariant
            i <= d,
            d <= h@.len(),
            forall|j: int| 0 <= j < i ==> h@[j] == '0',
        decreases d - i,
    {
        if h.get_char(i) != '0' {
            return false;
        }
        i += 1;
    }
    true
}

impl Block {
    /// Seals an unmined block at the given creation instant: computes the
    /// merkle-style root over the transactions, sets `nonce = 0`, and commits
    /// a provisional proof-of-work hash. No search is performed.
    pub fn new_at(
        transactions: Vec<Transaction>,
        index: u64,
        previous_block_hash: Option<String>,
        difficulty: usize,
        timestamp: u64,
    ) -> (r: Block)
        requires
            amounts_valid(transactions@),
        ensures
            r@.transactions == txs_model(transactions@),
            r@.header.index == index,
            r@.header.version == schema_version(),
            r@.header.previous_block_hash == opt_view(previous_block_hash),
            r@.header.merkle_root_hash == spec_merkle_root(txs_model(transactions@)),
            r@.header.timestamp == timestamp,
            r@.header.nonce == 0,
            r@.header.difficulty == difficulty,
            r@.header.block_hash == pow_hash(
                index,
                timestamp,
                spec_merkle_root(txs_model(transactions@)),
                0,
            ),
    {
        let ghost m = txs_model(transactions@);
        let mut input = String::new();
        let mut i: usize = 0;
        while i < transactions.len()
            invariant
                i <= transactions@.len(),
                amounts_valid(transactions@),
                m == txs_model(transactions@),
                input@ == merkle_input(m.take(i as int)),
            decreases transactions@.len() - i,
        {
            let t = &transactions[i];
            input.append(t.txid.as_str());
            let amt = render_amount(&t.amount);
            input.append(amt.as_str());
            input.append(t.from.as_str());
            input.append(t.to.as_str());
            let ts = u64_to_string(t.timestamp);
            input.append(ts.as_str());
            proof {
                assert(m.take(i as int + 1).drop_last() =~= m.take(i as int));
                assert(m.take(i as int + 1).last() == m[i as int]);
                assert(input@ =~= merkle_input(m.take(i as int + 1)));
            }
            i += 1;
        }
        proof {
            assert(m.take(transactions@.len() as int) =~= m);
        }
        let merkle_root_hash = generate_sha256_hash(input);
        let block_hash = compute_pow_hash(index, timestamp, &merkle_root_hash, 0);
        Block {
            header: BlockHeader {
                index,
                version: String::from_str("0.1.0"),
                previous_block_hash,
                block_hash,
                merkle_root_hash,
                timestamp,
                nonce: 0,
                difficulty,
            },
            transactions,
        }
    }

    /// Seals an unmined block created now: as `new_at`, with the current
    /// wall-clock time as the creation instant.
    pub fn new(
        transactions: Vec<Transaction>,
        index: u64,
        previous_block_hash: Option<String>,
        difficulty: usize,
    ) -> (r: Block)
        requires
            amounts_valid(transactions@),
        ensures
            r@.transactions == txs_model(transactions@),
            r@.header.index == index,
            r@.header.version == schema_version(),
            r@.header.previous_block_hash == opt_view(previous_block_hash),
            r@.header.merkle_root_hash == spec_merkle_root(txs_model(transactions@)),
            r@.header.nonce == 0,
            r@.header.difficulty == difficulty,
            r@.header.block_hash == pow_hash(
                index,
                r@.header.timestamp,
                spec_merkle_root(txs_model(transactions@)),
                0,
            ),
    {
        let timestamp = get_timestamp();
        Block::new_at(transactions, index, previous_block_hash, difficulty, timestamp)
    }

    /// The brute-force proof-of-work search: recomputes the hash over
    /// `(index, timestamp, merkle root, nonce)`, incrementing the nonce, until
    /// the hash starts with `difficulty` zero characters, then commits that
    /// hash and reports success. Success is reported exactly when some nonce
    /// from the current one onward satisfies the prefix, and the committed
    /// nonce is the least such one, so a repeated search at the same
    /// difficulty stays put; a difficulty of zero succeeds at once.
    /// Everything but the nonce and the committed hash is kept.
    pub fn mine(&mut self, difficulty: usize) -> (found: bool)
        ensures
            final(self).header.index == old(self).header.index,
            final(self).header.version == old(self).header.version,
            final(self).header.previous_block_hash == old(self).header.previous_block_hash,
            final(self).header.merkle_root_hash == old(self).header.merkle_root_hash,
            final(self).header.timestamp == old(self).header.timestamp,
            final(self).header.difficulty == old(self).header.difficulty,
            final(self).transactions == old(self).transactions,
            old(self).header.nonce <= final(self).header.nonce,
            found == (exists|n: u64|
                old(self).header.nonce <= n && zero_prefix(
                    #[trigger] pow_hash(
                        old(self).header.index,
                        old(self).header.timestamp,
                        old(self)@.header.merkle_root_hash,
                        n,
                    ),
                    difficulty as int,
                )),
            found ==> zero_prefix(
                pow_hash(
                    old(self).header.index,
                    old(self).header.timestamp,
                    old(self)@.header.merkle_root_hash,
                    final(self).header.nonce,
                ),
                difficulty as int,
            ),
            found ==> forall|m: u64|
                old(self).header.nonce <= m < final(self).header.nonce ==> !zero_prefix(
                    #[trigger] pow_hash(
                        old(self).header.index,
                        old(self).header.timestamp,
                        old(self)@.header.merkle_root_hash,
                        m,
                    ),
                    difficulty as int,
                ),
            found ==> final(self)@.header.block_hash == pow_hash(
                final(self).header.index,
                final(self).header.timestamp,
                final(self)@.header.merkle_root_hash,
                final(self).header.nonce,
            ),
            found ==> zero_prefix(final(self)@.header.block_hash, difficulty as int),
            !found ==> final(self).header.block_hash == old(self).header.block_hash,
            difficulty == 0 ==> found,
    {
        let mut h = compute_pow_hash(
            self.header.index,
            self.header.timestamp,
            &self.header.merkle_root_hash,
            self.header.nonce,
        );
        while !has_zero_prefix(h.as_str(), difficulty)
            invariant
                self.header.index == old(self).header.index,
                self.header.version == old(self).header.version,
                self.header.previous_block_hash == old(self).header.previous_block_hash,
                self.header.merkle_root_hash == old(self).header.merkle_root_hash,
                self.header.timestamp == old(self).header.timestamp,
                self.header.difficulty == old(self).header.difficulty,
                self.header.block_hash == old(self).header.block_hash,
                self.transactions == old(self).transactions,
                old(self).header.nonce <= self.header.nonce,
                forall|m: u64|
                    old(self).header.nonce <= m < self.header.nonce ==> !zero_prefix(
                        #[trigger] pow_hash(
                            old(self).header.index,
                            old(self).header.timestamp,
                            old(self)@.header.merkle_root_hash,
                            m,
                        ),
                        difficulty as int,
                    ),
                h@ == pow_hash(
                    self.header.index,
                    self.header.timestamp,
                    self.header.merkle_root_hash@,
                    self.header.nonce,
                ),
            decreases u64::MAX - self.header.nonce,
        {
            proof {
                if difficulty == 0 {
                    assert(zero_prefix(h@, 0));
                }
                assert(!zero_prefix(
                    pow_hash(
                        old(self).header.index,
                        old(self).header.timestamp,
                        old(self)@.header.merkle_root_hash,
                        self.header.nonce,
                    ),
                    difficulty as int,
                ));
            }
            if self.header.nonce == u64::MAX {
                proof {
                    assert forall|n: u64| old(self).header.nonce <= n implies !zero_prefix(
                        pow_hash(
                            old(self).header.index,
                            old(self).header.timestamp,
                            old(self)@.header.merkle_root_hash,
                            n,
                        ),
                        difficulty as int,
                    ) by {
                        if n < self.header.nonce {
                        } else {
                            assert(n == u64::MAX);
                        }
                    }
                }
                return false;
            }
            self.header.nonce = self.header.nonce + 1;
            h = compute_pow_hash(
                self.header.index,
                self.header.timestamp,
                &self.header.merkle_root_hash,
                self.header.nonce,
            );
        }
        proof {
            assert(zero_prefix(
                pow_hash(
                    old(self).header.index,
                    old(self).header.timestamp,
                    old(self)@.header.merkle_root_hash,
                    self.header.nonce,
                ),
                difficulty as int,
            ));
        }
        self.header.block_hash = h;
        true
    }

    /// A field-for-field copy.
    pub fn duplicate(&self) -> (r: Block)
        ensures
            r@ == self@,
    {
        let mut transactions: Vec<Transaction> = Vec::new();
        let mut i: usize = 0;
        while i < self.transactions.len()
            invariant
                i <= self.transactions@.len(),
                transactions@.len() == i,
                forall|j: int| 0 <= j < i ==> (#[trigger] transactions@[j])@
                    == self.transactions@[j]@,
            decreases self.transactions@.len() - i,
        {
            transactions.push(self.transactions[i].duplicate());
            i += 1;
        }
        let r = Block {
            header: BlockHeader {
                index: self.header.index,
                version: self.header.version.clone(),
                previous_block_hash: match &self.header.previous_block_hash {
                    Some(h) => Some(h.clone()),
                    None => None,
                },
                block_hash: self.header.block_hash.clone(),
                merkle_root_hash: self.header.merkle_root_hash.clone(),
                timestamp: self.header.timestamp,
                nonce: self.header.nonce,
                difficulty: self.header.difficulty,
            },
            transactions,
        };
        proof {
            assert(r@.transactions =~= self@.transactions);
            assert(r@ =~= self@);
        }
        r
    }
}

} // verus!
