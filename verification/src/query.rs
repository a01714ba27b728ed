use vstd::prelude::*;

use crate::block::Block;
use crate::blockchain::{blocks_model, BlockChain};

verus! {

/// Query parameters of a paginated chain read; missing values take the
/// defaults (page 1, fifty blocks a page).
#[derive(Debug)]
pub struct Pagination {
    pub page: Option<usize>,
    pub page_size: Option<usize>,
}

/// The page number actually used: the first page when none was asked for.
pub open spec fn page_of(p: Pagination) -> int {
    match p.page {
        Some(x) => x as int,
        None => 1,
    }
}

/// The page size actually used: fifty when none was asked for.
pub open spec fn page_size_of(p: Pagination) -> int {
    match p.page_size {
        Some(x) => x as int,
        None => 50,
    }
}

/// One page of the chain, with the total block count and the resolved
/// pagination values.
#[derive(Debug)]
pub struct ChainPage {
    pub count: usize,
    pub page: usize,
    pub page_size: usize,
    pub chain: Vec<Block>,
}

/// The health reply: always the same literal document.
pub fn health_response() -> (r: &'static str)
    ensures
        r@ == "{\"health\":\"OK\"}"@,
{
    "{\"health\":\"OK\"}"
}

impl BlockChain {
    /// The requested page of the chain: the blocks from offset
    /// `(page - 1) * page_size`, at most `page_size` of them, together with
    /// the total count. Any out-of-range request — page zero, a page past the
    /// end, or an offset beyond what the machine can address — yields an
    /// empty list and the full count, never an error.
    pub fn chain_page(&self, pagination: &Pagination) -> (r: ChainPage)
        ensures
            r.count == self@.chain.len(),
            r.page == page_of(*pagination),
            r.page_size == page_size_of(*pagination),
            ({
                let offset = (page_of(*pagination) - 1) * page_size_of(*pagination);
                let len = self@.chain.len() as int;
                if page_of(*pagination) < 1 || offset >= len {
                    r.chain@.len() == 0
                } else {
                    let hi = if offset + page_size_of(*pagination) > len {
                        len
                    } else {
                        offset + page_size_of(*pagination)
                    };
                    blocks_model(r.chain@) == self@.chain.subrange(offset, hi)
                }
            }),
    {
        let page: usize = match pagination.page {
            Some(p) => p,
            None => 1,
        };
        let page_size: usize = match pagination.page_size {
            Some(s) => s,
            None => 50,
        };
        let count = self.chain.len();
        let mut chain: Vec<Block> = Vec::new();
        if page >= 1 {
            match (page - 1).checked_mul(page_size) {
                Some(offset) => if offset < count {
                    let remaining = count - offset;
                    let take = if page_size < remaining {
                        page_size
                    } else {
                        remaining
                    };
                    let mut j: usize = 0;
                    while j < take
                        invariant
                            j <= take,
                            offset + take <= count,
                            count == self.chain@.len(),
                            chain@.len() == j,
                            forall|k: int|
                                0 <= k < j ==> (#[trigger] chain@[k])@ == self.chain@[offset
                                    + k]@,
                        decreases take - j,
                    {
                        chain.push(self.chain[offset + j].duplicate());
                        j += 1;
                    }
                    proof {
                        assert(blocks_model(chain@) =~= self@.chain.subrange(
                            offset as int,
                            offset as int + take as int,
                        ));
                    }
                },
                None => {
                    // the offset exceeds the address space, hence the chain
                },
            }
        }
        ChainPage { count, page, page_size, chain }
    }
}

} // verus!
