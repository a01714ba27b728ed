use vstd::prelude::*;

use crate::block::{
    amounts_valid, pow_hash, pow_unsatisfiable, spec_merkle_root, txs_model, zero_prefix, Block,
    BlockModel,
};
use crate::errors::LedgerError;
use crate::transaction::{Transaction, TxModel};

verus! {

/// The mathematical content of the ledger: the sealed chain, the configured
/// difficulty, and the pending pool.
#[verifier::ext_equal]
pub ghost struct LedgerModel {
    pub chain: Seq<BlockModel>,
    pub difficulty: usize,
    pub memory_pool: Seq<TxModel>,
}

/// The ledger aggregate: the authoritative ordered chain of sealed blocks
/// plus the mutable pool of pending transactions.
#[derive(Debug)]
pub struct BlockChain {
    pub chain: Vec<Block>,
    pub difficulty: usize,
    pub memory_pool: Vec<Transaction>,
}

/// The views of a sequence of blocks.
pub open spec fn blocks_model(blocks: Seq<Block>) -> Seq<BlockModel> {
    blocks.map_values(|b: Block| b@)
}

impl View for BlockChain {
    type V = LedgerModel;

    open spec fn view(&self) -> LedgerModel {
        LedgerModel {
            chain: blocks_model(self.chain@),
            difficulty: self.difficulty,
            memory_pool: txs_model(self.memory_pool@),
        }
    }
}

/// The chain invariant: the genesis block exists at position 0 with no
/// predecessor and no transactions, and every later block links to its
/// predecessor's hash and carries the next index.
pub open spec fn chain_wf(chain: Seq<BlockModel>) -> bool {
    &&& chain.len() >= 1
    &&& chain[0].header.index == 0
    &&& chain[0].header.previous_block_hash is None
    &&& chain[0].transactions.len() == 0
    &&& forall|i: int|
        1 <= i < chain.len() ==> (#[trigger] chain[i]).header.previous_block_hash == Some(
            chain[i - 1].header.block_hash,
        )
    &&& forall|i: int|
        1 <= i < chain.len() ==> (#[trigger] chain[i]).header.index == chain[i
            - 1].header.index + 1
}

proof fn lemma_index_at(chain: Seq<BlockModel>, i: int)
    requires
        chain_wf(chain),
        0 <= i < chain.len(),
    ensures
        chain[i].header.index == i,
    decreases i,
{
    if i > 0 {
        lemma_index_at(chain, i - 1);
    }
}

/// In a well-formed chain every block links to its predecessor's hash, and
/// the indices increase strictly by one from zero: block `i` carries index
/// `i`.
pub proof fn lemma_chain_linkage(chain: Seq<BlockModel>)
    requires
        chain_wf(chain),
    ensures
        forall|i: int|
            1 <= i < chain.len() ==> (#[trigger] chain[i]).header.previous_block_hash == Some(
                chain[i - 1].header.block_hash,
            ),
        forall|i: int| 0 <= i < chain.len() ==> (#[trigger] chain[i]).header.index == i,
{
    assert forall|i: int| 0 <= i < chain.len() implies (#[trigger] chain[i]).header.index
        == i by {
        lemma_index_at(chain, i);
    }
}

/// Transactions submitted while a mining search is in progress are neither
/// lost nor reordered: if two submissions land in the pool after a drain, the
/// block sealed from the next drain commits the earlier pool followed by both
/// submissions, in submission order.
pub proof fn lemma_submissions_survive_mining(
    pool: Seq<TxModel>,
    t1: TxModel,
    t2: TxModel,
    b: BlockModel,
)
    requires
        b.transactions == pool.push(t1).push(t2),
    ensures
        b.transactions.len() == pool.len() + 2,
        b.transactions.subrange(0, pool.len() as int) =~= pool,
        b.transactions[pool.len() as int] == t1,
        b.transactions[pool.len() as int + 1] == t2,
        b.transactions.contains(t1),
        b.transactions.contains(t2),
{
}

/// A field-for-field copy of a transaction list.
fn duplicate_transactions(txs: &Vec<Transaction>) -> (r: Vec<Transaction>)
    ensures
        txs_model(r@) == txs_model(txs@),
        amounts_valid(txs@) ==> amounts_valid(r@),
{
    let mut r: Vec<Transaction> = Vec::new();
    let mut i: usize = 0;
    while i < txs.len()
        invariant
            i <= txs@.len(),
            r@.len() == i,
            forall|j: int| 0 <= j < i ==> (#[trigger] r@[j])@ == txs@[j]@,
        decreases txs@.len() - i,
    {
        r.push(txs[i].duplicate());
        i += 1;
    }
    proof {
        assert(txs_model(r@) =~= txs_model(txs@));
        if amounts_valid(txs@) {
            assert forall|j: int| 0 <= j < r@.len() implies (#[trigger] r@[j]).amount.valid() by {
                assert(r@[j]@ == txs@[j]@);
            }
        }
    }
    r
}

impl BlockChain {
    /// The ledger invariant: the chain is hash-linked from its genesis block.
    pub open spec fn wf(self) -> bool {
        chain_wf(self@.chain)
    }

    /// A fresh ledger: one genesis block sealed over no transactions, an
    /// empty pool, and the given difficulty.
    pub fn new(difficulty: usize) -> (r: BlockChain)
        ensures
            r@.chain.len() == 1,
            r@.chain[0].header.index == 0,
            r@.chain[0].header.previous_block_hash is None,
            r@.chain[0].transactions.len() == 0,
            r@.chain[0].header.difficulty == difficulty,
            r@.chain[0].header.nonce == 0,
            r@.chain[0].header.version == crate::block::schema_version(),
            r@.chain[0].header.merkle_root_hash == spec_merkle_root(Seq::<TxModel>::empty()),
            r@.chain[0].header.block_hash == pow_hash(
                0,
                r@.chain[0].header.timestamp,
                spec_merkle_root(Seq::<TxModel>::empty()),
                0,
            ),
            r@.difficulty == difficulty,
            r@.memory_pool.len() == 0,
            r.wf(),
    {
        let genesis_block = Block::new(Vec::new(), 0, None, difficulty);
        let mut chain: Vec<Block> = Vec::new();
        chain.push(genesis_block);
        proof {
            assert(txs_model(Seq::<Transaction>::empty()) =~= Seq::<TxModel>::empty());
        }
        BlockChain { chain, difficulty, memory_pool: Vec::new() }
    }

    /// Runtime test of the chain invariant, for ledgers restored from
    /// storage.
    pub fn is_well_formed(&self) -> (r: bool)
        ensures
            r == self.wf(),
    {
        let n = self.chain.len();
        if n == 0 {
            return false;
        }
        let genesis = &self.chain[0];
        if genesis.header.index != 0 {
            return false;
        }
        match &genesis.header.previous_block_hash {
            Some(_) => {
                return false;
            },
            None => {},
        }
        if genesis.transactions.len() != 0 {
            return false;
        }
        let mut i: usize = 1;
        while i < n
            invariant
                1 <= i <= n,
                n == self.chain@.len(),
                forall|j: int|
                    1 <= j < i ==> (#[trigger] self@.chain[j]).header.previous_block_hash == Some(
                        self@.chain[j - 1].header.block_hash,
                    ),
                forall|j: int|
                    1 <= j < i ==> (#[trigger] self@.chain[j]).header.index == self@.chain[j
                        - 1].header.index + 1,
            decreases n - i,
        {
            let cur = &self.chain[i];
            let prev = &self.chain[i - 1];
            proof {
                assert(self@.chain[i as int] == self.chain@[i as int]@);
                assert(self@.chain[i as int - 1] == self.chain@[i as int - 1]@);
            }
            if cur.header.index == 0 || cur.header.index - 1 != prev.header.index {
                return false;
            }
            match &cur.header.previous_block_hash {
                Some(h) => if !h.eq(&prev.header.block_hash) {
                    return false;
                },
                None => {
                    return false;
                },
            }
            i += 1;
        }
        true
    }

    /// Runtime test that every pooled amount lies in the decimal domain.
    pub fn pool_valid(&self) -> (r: bool)
        ensures
            r == amounts_valid(self.memory_pool@),
    {
        let mut i: usize = 0;
        while i < self.memory_pool.len()
            invariant
                i <= self.memory_pool@.len(),
                forall|j: int| 0 <= j < i ==> (#[trigger] self.memory_pool@[j]).amount.valid(),
            decreases self.memory_pool@.len() - i,
        {
            if !self.memory_pool[i].amount.is_valid() {
                return false;
            }
            i += 1;
        }
        true
    }

    /// The chain's last block, copied out; `EmptyChain` exactly when the
    /// genesis invariant has been violated and no block exists.
    pub fn latest_block(&self) -> (r: Result<Block, LedgerError>)
        ensures
            match r {
                Ok(b) => self@.chain.len() > 0 && b@ == self@.chain.last(),
                Err(e) => e == LedgerError::EmptyChain && self@.chain.len() == 0,
            },
    {
        let n = self.chain.len();
        if n == 0 {
            Err(LedgerError::EmptyChain)
        } else {
            Ok(self.chain[n - 1].duplicate())
        }
    }

    /// Appends a pending transaction to the pool; the chain and the
    /// difficulty are untouched.
    pub fn submit_transaction(&mut self, tx: Transaction)
        requires
            tx.amount.valid(),
        ensures
            final(self)@.memory_pool == old(self)@.memory_pool.push(tx@),
            final(self)@.chain == old(self)@.chain,
            final(self)@.difficulty == old(self)@.difficulty,
            old(self).wf() ==> final(self).wf(),
            amounts_valid(old(self).memory_pool@) ==> amounts_valid(final(self).memory_pool@),
    {
        self.memory_pool.push(tx);
        proof {
            assert(txs_model(self.memory_pool@) =~= txs_model(old(self).memory_pool@).push(tx@));
        }
    }

    /// The atomic first step of a sealing cycle: snapshots and clears the
    /// pool and reads what the next block needs — the drained transactions,
    /// the difficulty, the next index, and the hash to link from.
    pub fn take_memory_pool(&mut self) -> (r: (Vec<Transaction>, usize, u64, String))
        requires
            old(self).wf(),
            old(self)@.chain.last().header.index < u64::MAX,
        ensures
            txs_model(r.0@) == old(self)@.memory_pool,
            amounts_valid(old(self).memory_pool@) ==> amounts_valid(r.0@),
            r.1 == old(self)@.difficulty,
            r.2 == old(self)@.chain.last().header.index + 1,
            r.3@ == old(self)@.chain.last().header.block_hash,
            final(self)@.memory_pool.len() == 0,
            final(self)@.chain == old(self)@.chain,
            final(self)@.difficulty == old(self)@.difficulty,
            final(self).wf(),
    {
        let transactions = duplicate_transactions(&self.memory_pool);
        self.memory_pool.clear();
        let n = self.chain.len();
        let latest = &self.chain[n - 1];
        let index = latest.header.index + 1;
        let previous_block_hash = latest.header.block_hash.clone();
        (transactions, self.difficulty, index, previous_block_hash)
    }

    /// The atomic last step of a sealing cycle: appends one mined block that
    /// links to the current chain tip; the pool and difficulty are untouched.
    pub fn append_block(&mut self, block: Block)
        requires
            old(self).wf(),
            block@.header.index == old(self)@.chain.last().header.index + 1,
            block@.header.previous_block_hash == Some(old(self)@.chain.last().header.block_hash),
        ensures
            final(self)@.chain == old(self)@.chain.push(block@),
            final(self)@.memory_pool == old(self)@.memory_pool,
            final(self)@.difficulty == old(self)@.difficulty,
            final(self).wf(),
    {
        self.chain.push(block);
        proof {
            assert(blocks_model(self.chain@) =~= blocks_model(old(self).chain@).push(block@));
        }
    }

    /// One full sealing cycle, run sequentially: seals a block over the whole
    /// pool, mines it at the configured difficulty, and — on success —
    /// clears the pool, appends the block, and returns a copy of it. The
    /// block is sealed at the clock's instant, so what holds of every outcome
    /// is: the cycle comes back empty-handed only when some sealing instant
    /// had its whole nonce space fail, and then the ledger is left untouched
    /// (never observed at realistic difficulties); difficulty zero always
    /// succeeds.
    pub fn seal_cycle(&mut self) -> (r: Option<Block>)
        requires
            old(self).wf(),
            amounts_valid(old(self).memory_pool@),
            old(self)@.chain.last().header.index < u64::MAX,
        ensures
            r is None ==> exists|ts: u64|
                #[trigger] pow_unsatisfiable(
                    (old(self)@.chain.last().header.index + 1) as u64,
                    ts,
                    spec_merkle_root(old(self)@.memory_pool),
                    old(self)@.difficulty,
                ),
            match r {
                Some(b) => {
                    &&& final(self)@.chain == old(self)@.chain.push(b@)
                    &&& b@.transactions == old(self)@.memory_pool
                    &&& b@.header.index == old(self)@.chain.last().header.index + 1
                    &&& b@.header.previous_block_hash == Some(
                        old(self)@.chain.last().header.block_hash,
                    )
                    &&& b@.header.merkle_root_hash == spec_merkle_root(old(self)@.memory_pool)
                    &&& b@.header.block_hash == pow_hash(
                        b@.header.index,
                        b@.header.timestamp,
                        b@.header.merkle_root_hash,
                        b@.header.nonce,
                    )
                    &&& zero_prefix(b@.header.block_hash, old(self)@.difficulty as int)
                    &&& b@.header.difficulty == old(self)@.difficulty
                    &&& b@.header.version == crate::block::schema_version()
                    &&& final(self)@.memory_pool.len() == 0
                    &&& final(self)@.difficulty == old(self)@.difficulty
                    &&& final(self).wf()
                },
                None => final(self)@ == old(self)@,
            },
            old(self)@.difficulty == 0 ==> r is Some,
    {
        let n = self.chain.len();
        let index = self.chain[n - 1].header.index + 1;
        let previous_block_hash = self.chain[n - 1].header.block_hash.clone();
        let difficulty = self.difficulty;
        let transactions = duplicate_transactions(&self.memory_pool);
        let mut block = Block::new(transactions, index, Some(previous_block_hash), difficulty);
        let found = block.mine(difficulty);
        if !found {
            proof {
                let oldm = old(self)@;
                let merkle = spec_merkle_root(oldm.memory_pool);
                assert(oldm.chain.last() == old(self).chain@[old(self).chain@.len() - 1]@);
                assert(block.header.index == (oldm.chain.last().header.index + 1) as u64);
                assert(block.header.merkle_root_hash@ == merkle);
                assert forall|m: u64| !zero_prefix(
                    #[trigger] pow_hash(
                        block.header.index,
                        block.header.timestamp,
                        block.header.merkle_root_hash@,
                        m,
                    ),
                    difficulty as int,
                ) by {
                    if zero_prefix(
                        pow_hash(
                            block.header.index,
                            block.header.timestamp,
                            block.header.merkle_root_hash@,
                            m,
                        ),
                        difficulty as int,
                    ) {
                        assert(false);
                    }
                }
                assert(pow_unsatisfiable(
                    (oldm.chain.last().header.index + 1) as u64,
                    block.header.timestamp,
                    merkle,
                    oldm.difficulty,
                )) by {
                    assert forall|m: u64| !zero_prefix(
                        #[trigger] pow_hash(
                            (oldm.chain.last().header.index + 1) as u64,
                            block.header.timestamp,
                            merkle,
                            m,
                        ),
                        difficulty as int,
                    ) by {
                        assert(pow_hash(
                            (oldm.chain.last().header.index + 1) as u64,
                            block.header.timestamp,
                            merkle,
                            m,
                        ) == pow_hash(
                            block.header.index,
                            block.header.timestamp,
                            block.header.merkle_root_hash@,
                            m,
                        ));
                    }
                }
            }
            return None;
        }
        self.memory_pool.clear();
        let result = block.duplicate();
        self.append_block(block);
        proof {
            assert(txs_model(Seq::<Transaction>::empty()) =~= Seq::<TxModel>::empty());
        }
        Some(result)
    }
}

} // verus!
