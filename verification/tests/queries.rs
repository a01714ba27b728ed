use ledger_node::blockchain::BlockChain;
use ledger_node::query::{health_response, Pagination};

#[test]
fn health_is_the_same_literal_every_time() {
    let first = health_response();
    let second = health_response();
    assert_eq!(first, "{\"health\":\"OK\"}");
    assert_eq!(first, second);
}

fn chain_of(blocks: usize) -> BlockChain {
    let mut bc = BlockChain::new(0);
    for _ in 1..blocks {
        bc.seal_cycle().unwrap();
    }
    bc
}

#[test]
fn defaults_return_the_first_fifty() {
    let bc = chain_of(4);
    let page = bc.chain_page(&Pagination { page: None, page_size: None });
    assert_eq!(page.count, 4);
    assert_eq!(page.page, 1);
    assert_eq!(page.page_size, 50);
    assert_eq!(page.chain.len(), 4);
    for (i, b) in page.chain.iter().enumerate() {
        assert_eq!(b.header.index, i as u64);
    }
}

#[test]
fn an_inner_page_returns_its_slice() {
    let bc = chain_of(5);
    let page = bc.chain_page(&Pagination { page: Some(2), page_size: Some(2) });
    assert_eq!(page.count, 5);
    assert_eq!(page.page, 2);
    assert_eq!(page.page_size, 2);
    assert_eq!(page.chain.len(), 2);
    assert_eq!(page.chain[0].header.index, 2);
    assert_eq!(page.chain[1].header.index, 3);
}

#[test]
fn a_page_past_the_end_is_empty_not_an_error() {
    let bc = chain_of(3);
    let page = bc.chain_page(&Pagination { page: Some(7), page_size: Some(2) });
    assert_eq!(page.count, 3);
    assert_eq!(page.page, 7);
    assert_eq!(page.page_size, 2);
    assert!(page.chain.is_empty());
}

#[test]
fn page_zero_is_out_of_range_not_an_error() {
    let bc = chain_of(3);
    let page = bc.chain_page(&Pagination { page: Some(0), page_size: Some(2) });
    assert_eq!(page.count, 3);
    assert_eq!(page.page, 0);
    assert_eq!(page.page_size, 2);
    assert!(page.chain.is_empty());
}

#[test]
fn an_offset_past_the_address_space_is_an_empty_page() {
    let bc = chain_of(2);
    let page = bc.chain_page(&Pagination { page: Some(usize::MAX), page_size: Some(usize::MAX) });
    assert_eq!(page.count, 2);
    assert_eq!(page.page, usize::MAX);
    assert!(page.chain.is_empty());
}

#[test]
fn a_partial_last_page() {
    let bc = chain_of(5);
    let page = bc.chain_page(&Pagination { page: Some(2), page_size: Some(3) });
    assert_eq!(page.count, 5);
    assert_eq!(page.chain.len(), 2);
    assert_eq!(page.chain[0].header.index, 3);
    assert_eq!(page.chain[1].header.index, 4);
}
