use keeper::rpc::fetcher::{AccountFetcher, MockAccountFetcher};

#[test]
fn mock_fetcher_returns_none_for_unknown_pubkey() {
    let f = MockAccountFetcher::new();
    let pk = [1u8; 32];
    assert_eq!(f.fetch_account(&pk).unwrap(), None);
}

#[test]
fn mock_fetcher_program_accounts_filter_memcmp() {
    let mut f = MockAccountFetcher::new();
    let owner = [9u8; 32];
    let other = [7u8; 32];
    f.insert([1u8; 32], owner, vec![42, 99, 1, 2, 3]);
    f.insert([2u8; 32], owner, vec![42, 0, 4, 5]);
    f.insert([3u8; 32], other, vec![42, 99, 6]);
    let hits = f.fetch_program_accounts_filter(&owner, 0, &[42, 99]).unwrap();
    assert_eq!(hits.len(), 1);
    assert_eq!(hits[0].0, [1u8; 32]);
}

#[test]
fn mock_fetcher_skips_short_accounts() {
    let mut f = MockAccountFetcher::new();
    let owner = [9u8; 32];
    f.insert([1u8; 32], owner, vec![1u8, 2u8]);
    let hits = f
        .fetch_program_accounts_filter(&owner, 10, &[1u8])
        .unwrap();
    assert!(hits.is_empty());
}
