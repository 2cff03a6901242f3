use keeper::rpc::pda::{
    distribution_ledger_seeds, dormant_bucket_seeds, global_config_seeds, market_seeds,
    sub_pool_seeds,
};

#[test]
fn seeds_layout_pinned() {
    let market = [9u8; 32];
    let sp_seeds = sub_pool_seeds(&market, 7);
    assert_eq!(sp_seeds.segments[0], b"sub_pool");
    assert_eq!(sp_seeds.segments[1], market.to_vec());
    assert_eq!(sp_seeds.segments[2], 7u32.to_le_bytes().to_vec());

    let sp = [3u8; 32];
    let lg_seeds = distribution_ledger_seeds(&sp, false);
    assert_eq!(lg_seeds.segments[0], b"dist_ledger");
    assert_eq!(lg_seeds.segments[2], vec![0u8]);

    let bk_seeds = dormant_bucket_seeds(&sp, true, -100i64);
    assert_eq!(bk_seeds.segments[0], b"dormant_bucket");
    assert_eq!(bk_seeds.segments[2], vec![1u8]);
    assert_eq!(bk_seeds.segments[3], (-100i64).to_le_bytes().to_vec());

    let mk_seeds = market_seeds(&[7u8; 16]);
    assert_eq!(mk_seeds.segments[0], b"market");
    assert_eq!(mk_seeds.segments[1], [7u8; 16].to_vec());
}

#[test]
fn as_refs_matches_segments() {
    let seeds = global_config_seeds();
    let refs = seeds.as_refs();
    assert_eq!(refs.len(), 1);
    assert_eq!(refs[0], b"global_config");
}
