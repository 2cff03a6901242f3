use std::collections::HashMap;

use base64::Engine;
use keeper::decoder::accounts::{
    OnchainDistributionLedger, OnchainDormantBucket, OnchainMarket, OnchainSubPool,
};
use keeper::decoder::leader_lock::{encode_keeper_leader_lock_account, KeeperLeaderLock};
use keeper::decoder::{encode_anchor_account, AccountDecodeError, Pubkey32};
use keeper::decoder::ix::account_discriminator;
use keeper::planner::cycle::{ActionDispatchResult, ActionExecutor};
use keeper::planner::{Direction, InitRationale, KeeperAction, KeeperChainView};
use keeper::rpc::fetcher::{AccountFetcher, MockAccountFetcher, RpcError};
use keeper::rpc::leader_tx::{decode_lock_answer, LeaderReconcileError};
use keeper::rpc::market_registry::{
    env_pieces, substitute_env_vars, EnvPiece, MarketRegistry, RegistryError,
};
use keeper::rpc::pda::{
    dormant_bucket_seeds, keeper_leader_lock_seeds, market_vault_authority_seeds, sub_pool_seeds,
};
use keeper::rpc::snapshot::{
    health_of, ChainSnapshot, MarketContext, SnapshotConfig, SnapshotError, SubPoolEntry,
    SCHEMA_VERSION_CURRENT,
};
use keeper::rpc::solana::{
    decode_account_data_blob, decode_payload, finish_address, finish_base64,
    read_program_accounts,
    AccountDataBlob, KeyedAccount,
};
use keeper::rpc::tx::{
    encode_close_dormant_bucket_ix, encode_initialize_dormant_bucket_ix,
    encode_pre_sync_dormant_bucket_ix, AccountMeta, MockTxBuilder, RpcExecutor, TxBuildError,
    TxBuilder,
};

const PROGRAM: Pubkey32 = [9; 32];
const MARKET: Pubkey32 = [1; 32];
const POOL: Pubkey32 = [2; 32];
const KEEPER: Pubkey32 = [42; 32];
const CLOCK: Pubkey32 = [3; 32];
const SYSTEM: Pubkey32 = [4; 32];
const DISC: [u8; 8] = [1; 8];

fn market() -> OnchainMarket {
    OnchainMarket {
        global_config: [0; 32],
        symbol: [0; 16],
        collateral_mint: [0; 32],
        vault: [0; 32],
        fee_vault: [0; 32],
        oracle_price_feed: [0; 32],
        oracle_program_id: [0; 32],
        leverage_bps: 1_000,
        min_margin: 1,
        max_margin_per_position: u64::MAX,
        max_total_principal: u128::MAX,
        max_total_notional: u128::MAX,
        current_total_principal: 0,
        current_total_notional: 0,
        open_fee_bps: 0,
        max_oracle_age_seconds: 60,
        max_oracle_age_slots: 100,
        max_confidence_bps: 100,
        max_price_move_bps_per_sync: 5_000,
        price_tick: 1,
        tick_aggregation_factor: 1,
        max_dormant_bucket_count_per_direction: 100,
        dilution_safety_bps: 100,
        max_idle_slots: 1_000_000,
        paused: false,
        frozen_new_position: false,
        schema_version: SCHEMA_VERSION_CURRENT,
        sub_pool_count: 1,
        dormant_distribute_mode: 1,
        max_pending_apply_per_tx: 8,
        max_distribution_ledger_size: 64,
        bump: 255,
        _pad: [0; 2],
    }
}

fn pool() -> OnchainSubPool {
    OnchainSubPool {
        market: MARKET,
        sub_pool_id: 0,
        long_pool_equity: 11,
        short_pool_equity: 12,
        long_active_shares: 13,
        short_active_shares: 14,
        long_recovery_shares: 0,
        short_recovery_shares: 0,
        long_active_notional: 15,
        short_active_notional: 16,
        long_active_generation: 17,
        short_active_generation: 18,
        last_price: 100,
        last_sync_slot: 7,
        long_dust: 0,
        short_dust: 0,
        long_dormant_bucket_count: 1,
        short_dormant_bucket_count: 1,
        bump: 255,
        _pad: [0; 7],
    }
}

fn ledger(long: bool, head: u64) -> OnchainDistributionLedger {
    OnchainDistributionLedger {
        sub_pool: POOL,
        direction_is_long: long,
        max_entries: 64,
        gc_offset: 0,
        next_event_index: head,
        accrued_value_total: 0,
        pending_distribution_total: 0,
        entry_count: 0,
        entries: vec![],
        bump: 255,
        _pad: [0; 7],
    }
}

fn bucket(long: bool, tick: i64) -> OnchainDormantBucket {
    OnchainDormantBucket {
        sub_pool: POOL,
        direction_is_long: long,
        zero_price_tick: tick,
        anchor_price: 100,
        total_recovery_shares: 1,
        total_recovery_notional: 1,
        accrued_value: 0,
        position_count: 1,
        last_applied_index: 0,
        bump: 255,
        _pad: [0; 6],
    }
}

fn ctx() -> MarketContext {
    MarketContext {
        program_id: PROGRAM,
        market: MARKET,
        market_symbol: [0; 16],
        sub_pools: vec![SubPoolEntry { sub_pool_id: 0, pubkey: POOL }],
    }
}

fn fetcher() -> MockAccountFetcher {
    let mut f = MockAccountFetcher::new();
    f.insert(MARKET, PROGRAM, encode_anchor_account(&market(), &DISC).unwrap());
    f.insert(POOL, PROGRAM, encode_anchor_account(&pool(), &DISC).unwrap());
    f.insert([10; 32], PROGRAM, encode_anchor_account(&ledger(true, 5), &DISC).unwrap());
    f.insert([11; 32], PROGRAM, encode_anchor_account(&ledger(false, 6), &DISC).unwrap());
    f.insert([21; 32], PROGRAM, encode_anchor_account(&bucket(true, 7), &DISC).unwrap());
    f.insert([22; 32], PROGRAM, encode_anchor_account(&bucket(true, -7), &DISC).unwrap());
    f.insert([23; 32], PROGRAM, encode_anchor_account(&bucket(false, 3), &DISC).unwrap());
    f
}

fn snapshot() -> ChainSnapshot {
    let mut snap = ChainSnapshot::new();
    snap.refresh(&fetcher(), &ctx(), SnapshotConfig::default()).unwrap();
    snap
}

#[test]
fn snapshot_shows_what_the_accounts_hold() {
    let snap = snapshot();
    let ticks: Vec<(Direction, i64)> =
        snap.buckets(0).iter().map(|b| (b.direction, b.tick)).collect();
    assert_eq!(
        ticks,
        vec![(Direction::Short, 3), (Direction::Long, -7), (Direction::Long, 7)]
    );
    assert_eq!(snap.ledger(0, Direction::Short).unwrap().next_event_index, 6);
    assert_eq!(snap.ledger_pubkey(0, Direction::Long), Some([10; 32]));
    assert_eq!(snap.ledger_pubkey(1, Direction::Long), None);
    assert_eq!(snap.bucket_pubkey(0, Direction::Short, 3), Some([23; 32]));
    assert_eq!(snap.sub_pool_health(0).unwrap(), health_of(0, &pool()));
    assert_eq!(snap.sub_pool_health(1), None);
    assert_eq!(snap.market(), Some(&market()));
}

#[test]
fn health_is_anchored_at_the_last_price() {
    let h = health_of(4, &pool());
    assert_eq!(h.sub_pool_id, 4);
    assert_eq!((h.last_price, h.long_anchor_price, h.short_anchor_price), (100, 100, 100));
    assert_eq!((h.long_pool_equity, h.short_pool_equity), (11, 12));
    assert_eq!((h.long_active_notional, h.short_active_notional), (15, 16));
    assert_eq!((h.long_active_generation, h.short_active_generation), (17, 18));
}

#[test]
fn refresh_errors_are_told_apart() {
    let mut snap = ChainSnapshot::new();
    let empty = MockAccountFetcher::new();
    assert_eq!(
        snap.refresh(&empty, &ctx(), SnapshotConfig::default()),
        Err(SnapshotError::MarketNotFound(MARKET))
    );
    let mut f = fetcher();
    f.insert(MARKET, PROGRAM, vec![1, 2]);
    assert_eq!(
        snap.refresh(&f, &ctx(), SnapshotConfig::default()),
        Err(SnapshotError::Decode {
            kind: "market",
            pubkey: MARKET,
            source: AccountDecodeError::TooShort { len: 2, min: 8 },
        })
    );
    let mut f = fetcher();
    f.insert(POOL, PROGRAM, vec![1, 2]);
    assert!(matches!(
        snap.refresh(&f, &ctx(), SnapshotConfig::default()),
        Err(SnapshotError::Decode { kind: "sub_pool", .. })
    ));
    struct Down;
    impl AccountFetcher for Down {
        fn fetch_account(&self, _pubkey: &Pubkey32) -> Result<Option<Vec<u8>>, RpcError> {
            Err(RpcError::Transport("down".to_string()))
        }
        fn fetch_program_accounts_filter(
            &self,
            _program_id: &Pubkey32,
            _match_offset: usize,
            _match_bytes: &[u8],
        ) -> Result<Vec<(Pubkey32, Vec<u8>)>, RpcError> {
            Err(RpcError::Transport("down".to_string()))
        }
    }
    let err = snap.refresh(&Down, &ctx(), SnapshotConfig::default()).unwrap_err();
    assert_eq!(err, SnapshotError::Rpc(RpcError::Transport("down".to_string())));
    assert!(err.to_string().contains("rpc transport error: down"));
    assert!(snap.market().is_none());
    assert!(snap.sub_pools.is_empty());
}

#[test]
fn paused_market_is_refused_whatever_was_known() {
    let mut snap = snapshot();
    let mut paused = market();
    paused.paused = true;
    let mut f = fetcher();
    f.insert(MARKET, PROGRAM, encode_anchor_account(&paused, &DISC).unwrap());
    assert_eq!(
        snap.refresh(&f, &ctx(), SnapshotConfig::default()),
        Err(SnapshotError::MarketPaused)
    );
    assert!(snap.market().is_none());
    assert!(snap.sub_pool_ids().is_empty());
    assert!(!SnapshotError::MarketPaused.to_string().is_empty());
}

#[test]
fn answers_can_be_taken_in_one_by_one() {
    let mut snap = ChainSnapshot::new();
    let entry = SubPoolEntry { sub_pool_id: 0, pubkey: POOL };
    let raw = encode_anchor_account(&market(), &DISC).unwrap();
    snap.accept_market(&ctx(), SnapshotConfig::default(), Ok(Some(raw))).unwrap();
    let raw = encode_anchor_account(&pool(), &DISC).unwrap();
    snap.accept_sub_pool(&ctx(), &entry, Ok(Some(raw))).unwrap();
    snap.accept_account(&entry, true, [21; 32], &encode_anchor_account(&bucket(true, 7), &DISC).unwrap());
    let listed = vec![
        ([22; 32], encode_anchor_account(&bucket(true, -7), &DISC).unwrap()),
        ([23; 32], encode_anchor_account(&bucket(false, 3), &DISC).unwrap()),
        ([10; 32], encode_anchor_account(&ledger(true, 5), &DISC).unwrap()),
    ];
    snap.accept_accounts(&entry, true, &listed);
    assert_eq!(snap.buckets(0).iter().map(|b| b.tick).collect::<Vec<_>>(), vec![7, -7]);
    snap.sort_buckets(0);
    assert_eq!(snap.buckets(0).iter().map(|b| b.tick).collect::<Vec<_>>(), vec![-7, 7]);
    assert_eq!(snap.ledger_pubkey(0, Direction::Long), Some([10; 32]));
    assert_eq!(snap.bucket_pubkey(0, Direction::Short, 3), None);
}

#[test]
fn listing_is_in_the_order_of_addresses() {
    let mut f = MockAccountFetcher::new();
    for i in [5u8, 1, 3] {
        f.insert([i; 32], PROGRAM, vec![7, i]);
    }
    let hits = f.fetch_program_accounts_filter(&PROGRAM, 0, &[7]).unwrap();
    assert_eq!(hits, vec![([1; 32], vec![7, 1]), ([3; 32], vec![7, 3]), ([5; 32], vec![7, 5])]);
    assert_eq!(f.fetch_account(&[3; 32]).unwrap(), Some(vec![7, 3]));
    assert_eq!(f.len(), 3);
    assert!(!f.is_empty());
}

#[test]
fn only_the_keeper_signs() {
    let snap = snapshot();
    let exec = RpcExecutor::new(PROGRAM, MARKET, KEEPER, CLOCK, SYSTEM, &snap, MockTxBuilder::new());
    let actions = [
        KeeperAction::PreSyncDormantBucket {
            sub_pool_id: 0,
            direction: Direction::Long,
            tick: 7,
            pending: 1,
        },
        KeeperAction::CloseDormantBucket { sub_pool_id: 0, direction: Direction::Short, tick: 3 },
        KeeperAction::InitDormantBucket {
            sub_pool_id: 0,
            direction: Direction::Short,
            tick: 8,
            rationale: InitRationale::Explicit,
        },
    ];
    for action in actions {
        let d = exec.build(&action).unwrap();
        assert_eq!(d.accounts.iter().filter(|a| a.is_signer).count(), 1);
        for a in &d.accounts {
            assert!(!a.is_signer || a.pubkey == KEEPER);
        }
    }
}

#[test]
fn pre_sync_lists_the_buckets_of_both_sides() {
    let snap = snapshot();
    let exec = RpcExecutor::new(PROGRAM, MARKET, KEEPER, CLOCK, SYSTEM, &snap, MockTxBuilder::new());
    let d = exec
        .build(&KeeperAction::PreSyncDormantBucket {
            sub_pool_id: 0,
            direction: Direction::Long,
            tick: 7,
            pending: 1,
        })
        .unwrap();
    assert_eq!(d.data, encode_pre_sync_dormant_bucket_ix(true, 7, 1, 1));
    let tail: Vec<Pubkey32> = d.accounts[6..].iter().map(|a| a.pubkey).collect();
    assert_eq!(tail, vec![[21; 32], [22; 32], [23; 32]]);
    assert!(d.accounts[6..].iter().all(|a| a.is_writable));
}

#[test]
fn build_errors_are_told_apart() {
    let empty = ChainSnapshot::new();
    let close =
        KeeperAction::CloseDormantBucket { sub_pool_id: 0, direction: Direction::Long, tick: 7 };
    let exec =
        RpcExecutor::new(PROGRAM, MARKET, KEEPER, CLOCK, SYSTEM, &empty, MockTxBuilder::new());
    let missing_pool = exec.build(&close).unwrap_err();
    assert_eq!(missing_pool, TxBuildError::MissingSubPool(0));
    let mut known: HashMap<u32, Pubkey32> = HashMap::new();
    known.insert(0, POOL);
    let exec = exec.with_sub_pool_pubkeys(known);
    let missing = exec.build(&close).unwrap_err();
    assert!(matches!(
        missing,
        TxBuildError::MissingLedger { .. } | TxBuildError::MissingBucket { .. }
    ));
    let mut snap = snapshot();
    snap.ledger_pubkeys.remove(&(0, Direction::Long));
    snap.ledgers.remove(&(0, Direction::Long));
    let exec = RpcExecutor::new(PROGRAM, MARKET, KEEPER, CLOCK, SYSTEM, &snap, MockTxBuilder::new());
    assert_eq!(
        exec.build(&close).unwrap_err(),
        TxBuildError::MissingLedger { sub_pool_id: 0, direction: Direction::Long }
    );
    assert!(!missing_pool.to_string().is_empty());
    assert!(TxBuildError::Builder("x".to_string()).to_string().contains("x"));
}

#[test]
fn unbuildable_task_is_not_submitted() {
    let empty = ChainSnapshot::new();
    let mut exec =
        RpcExecutor::new(PROGRAM, MARKET, KEEPER, CLOCK, SYSTEM, &empty, MockTxBuilder::new());
    let r = exec.execute(KeeperAction::CloseDormantBucket {
        sub_pool_id: 0,
        direction: Direction::Long,
        tick: 7,
    });
    assert!(matches!(r, ActionDispatchResult::Failed { .. }));
    assert!(exec.builder.submitted.is_empty());
}

#[test]
fn mock_builder_answers_as_it_is_told() {
    let snap = snapshot();
    let exec = RpcExecutor::new(PROGRAM, MARKET, KEEPER, CLOCK, SYSTEM, &snap, MockTxBuilder::new());
    let d = exec
        .build(&KeeperAction::CloseDormantBucket {
            sub_pool_id: 0,
            direction: Direction::Long,
            tick: 7,
        })
        .unwrap();
    let mut b = MockTxBuilder::new();
    b.override_result = Some(ActionDispatchResult::Skipped { reason: "full" });
    assert_eq!(b.submit(&d), ActionDispatchResult::Skipped { reason: "full" });
    b.override_result = None;
    assert_eq!(b.submit(&d), ActionDispatchResult::Submitted { signature: None });
    assert_eq!(b.drain(), vec![d.clone(), d]);
    assert!(b.submitted.is_empty());
}

#[test]
fn instruction_data_tells_buckets_apart() {
    assert_ne!(encode_close_dormant_bucket_ix(true, 1), encode_close_dormant_bucket_ix(false, 1));
    assert_ne!(encode_close_dormant_bucket_ix(true, 1), encode_close_dormant_bucket_ix(true, 2));
    assert_ne!(
        encode_close_dormant_bucket_ix(true, 1),
        encode_initialize_dormant_bucket_ix(true, 1)
    );
    let mut want = vec![0xd6, 0x62, 0xa8, 0x7a, 0xc1, 0x9c, 0x38, 0x08, 1];
    want.extend((-2i64).to_le_bytes());
    want.extend(3u32.to_le_bytes());
    want.extend(4u32.to_le_bytes());
    assert_eq!(encode_pre_sync_dormant_bucket_ix(true, -2, 3, 4), want);
}

#[test]
fn metas_carry_their_flags() {
    let flags = |m: AccountMeta| (m.is_signer, m.is_writable);
    assert_eq!(flags(AccountMeta::writable(POOL)), (false, true));
    assert_eq!(flags(AccountMeta::readonly(POOL)), (false, false));
    assert_eq!(flags(AccountMeta::signer_writable(POOL)), (true, true));
    assert_eq!(flags(AccountMeta::signer_readonly(POOL)), (true, false));
}

#[test]
fn seeds_tell_accounts_apart() {
    assert_ne!(dormant_bucket_seeds(&POOL, true, 1), dormant_bucket_seeds(&POOL, true, -1));
    assert_ne!(dormant_bucket_seeds(&POOL, true, 1), dormant_bucket_seeds(&POOL, false, 1));
    assert_ne!(sub_pool_seeds(&MARKET, 1), sub_pool_seeds(&MARKET, 256));
    assert_eq!(
        market_vault_authority_seeds(&MARKET).segments,
        vec![b"market_vault_authority".to_vec(), MARKET.to_vec()]
    );
    assert_eq!(
        keeper_leader_lock_seeds(&MARKET).segments,
        vec![b"keeper_leader_lock".to_vec(), MARKET.to_vec()]
    );
}

#[test]
fn lock_answers_are_told_apart() {
    let lock = KeeperLeaderLock::held_by(KEEPER, 5, 75);
    let raw = encode_keeper_leader_lock_account(&lock, &account_discriminator("KeeperLeaderLock"));
    assert_eq!(decode_lock_answer(&POOL, Ok(Some(raw))).unwrap(), lock);
    let missing = decode_lock_answer(&POOL, Ok(None)).unwrap_err();
    assert_eq!(missing, LeaderReconcileError::NotFound(POOL));
    let down = decode_lock_answer(&POOL, Err(RpcError::Decode("x".to_string()))).unwrap_err();
    assert_eq!(down, LeaderReconcileError::Rpc(RpcError::Decode("x".to_string())));
    let bad = decode_lock_answer(&POOL, Ok(Some(vec![1]))).unwrap_err();
    assert_eq!(
        bad,
        LeaderReconcileError::Decode(AccountDecodeError::TooShort { len: 1, min: 8 })
    );
    for e in [missing, down, bad] {
        assert!(!e.to_string().is_empty());
    }
}

#[test]
fn rpc_errors_have_texts() {
    assert_eq!(RpcError::Transport("x".to_string()).to_string(), "rpc transport error: x");
    assert_eq!(
        RpcError::Code { code: -7, message: "x".to_string() }.to_string(),
        "rpc error code -7: x"
    );
    assert_eq!(RpcError::Decode("x".to_string()).to_string(), "decode error: x");
}

fn keyed(pubkey: &str, payload: &str) -> KeyedAccount {
    KeyedAccount {
        pubkey: pubkey.to_string(),
        data: Ok(AccountDataBlob::Array(vec![
            Some(payload.to_string()),
            Some("base64".to_string()),
        ])),
    }
}

#[test]
fn reply_is_put_in_the_order_of_addresses() {
    let clock = "SysvarC1ock11111111111111111111111111111111";
    let system = "11111111111111111111111111111111";
    let encoded = base64::engine::general_purpose::STANDARD.encode([1u8, 2, 3]);
    let got = read_program_accounts(&vec![keyed(clock, &encoded), keyed(system, "")]).unwrap();
    assert_eq!(got.len(), 2);
    assert_eq!(got[0], ([0; 32], vec![]));
    assert_eq!(got[1].0[..4], [6, 167, 213, 23]);
    assert_eq!(got[1].1, vec![1, 2, 3]);
}

#[test]
fn reply_errors_name_what_is_wrong() {
    let bad_key = read_program_accounts(&vec![keyed("not a key", "")]).unwrap_err();
    assert!(bad_key.to_string().contains("invalid pubkey not a key"));
    let bad_data = read_program_accounts(&vec![keyed("11111111111111111111111111111111", "?")]);
    assert!(matches!(bad_data, Err(RpcError::Decode(text)) if text.starts_with("base64 decode: ")));
    let unread = KeyedAccount {
        pubkey: "11111111111111111111111111111111".to_string(),
        data: Err("broken".to_string()),
    };
    assert_eq!(
        read_program_accounts(&vec![unread]).unwrap_err(),
        RpcError::Decode("data re-serialize: broken".to_string())
    );
}

#[test]
fn payloads_are_base64() {
    assert_eq!(decode_payload("AQID", "base64").unwrap(), vec![1, 2, 3]);
    assert!(decode_payload("AQID", "base58").is_err());
    assert_eq!(finish_base64(Ok(vec![7])).unwrap(), vec![7]);
    assert_eq!(
        finish_base64(Err("odd".to_string())).unwrap_err(),
        RpcError::Decode("base64 decode: odd".to_string())
    );
    let blob = AccountDataBlob::Array(vec![Some("AQID".to_string()), None]);
    assert_eq!(
        decode_account_data_blob(&blob).unwrap_err(),
        RpcError::Decode("data[1] is not a string".to_string())
    );
}

#[test]
fn references_are_told_from_text() {
    assert_eq!(
        env_pieces("a${B}$$c"),
        vec![
            EnvPiece::Literal('a'),
            EnvPiece::Reference("B".to_string()),
            EnvPiece::Literal('$'),
            EnvPiece::Literal('c'),
        ]
    );
    assert!(matches!(env_pieces("é${")[..], [EnvPiece::Literal('é'), EnvPiece::Malformed { offset: 2, .. }]));
}

#[test]
fn plain_text_is_kept() {
    for text in ["", "a $ b", "{x}", "käse\n"] {
        assert_eq!(substitute_env_vars(text, &|_| None).unwrap(), text);
    }
}

const KEY: &str = "11111111111111111111111111111112";

#[test]
fn registry_errors_are_told_apart() {
    let load = |text: &str| MarketRegistry::from_resolved_str(text).unwrap_err();
    assert_eq!(load(""), RegistryError::Empty);
    assert!(matches!(load("[[pools]]\n"), RegistryError::Toml { line: 1, .. }));
    assert!(matches!(load("[[markets]]\nsymbol\n"), RegistryError::Toml { line: 2, .. }));
    assert_eq!(
        load("[[markets]]\nprogram_id = \"x\"\n"),
        RegistryError::MissingKey { index: 0, key: "symbol" }
    );
    let bad = format!("[[markets]]\nsymbol = \"A\"\nprogram_id = \"{KEY}\"\nmarket_pda = \"0\"\n");
    assert!(matches!(
        load(&bad),
        RegistryError::InvalidPubkey { field: "market_pda", .. }
    ));
    let empty = format!("[[markets]]\nsymbol = \"\"\nprogram_id = \"{KEY}\"\nmarket_pda = \"{KEY}\"\n");
    assert!(matches!(load(&empty), RegistryError::InvalidSymbol { .. }));
    let errors = [
        load(""),
        load("x"),
        load("[[markets]]\n"),
        load(&bad),
        load(&empty),
        RegistryError::DuplicateSymbol { symbol: "A".to_string() },
        RegistryError::EnvVar { name: "A".to_string() },
        RegistryError::MalformedEnvRef { offset: 3, detail: "d".to_string() },
    ];
    for e in errors {
        assert!(!e.to_string().is_empty());
    }
}

#[test]
fn loaded_registry_is_sound() {
    let text = format!(
        "[[markets]]\nsymbol = \"A\"\nprogram_id = \"{KEY}\"\nmarket_pda = \"{KEY}\"\n\n[[markets]]\nsymbol = \"B\"\nprogram_id = \"{KEY}\"\nmarket_pda = \"{KEY}\"\n"
    );
    let r = MarketRegistry::from_resolved_str(&text).unwrap();
    assert!(!r.is_empty());
    assert_eq!(r.iter().len(), 2);
    for m in r.iter() {
        assert_eq!(r.find_by_symbol(&m.symbol), Some(m));
        assert!(m.symbol.len() <= 16);
    }
}

#[test]
fn outcome_of_parsing_an_address_is_reported() {
    assert_eq!(finish_address("x", Ok([7; 32])), Ok([7; 32]));
    assert_eq!(
        finish_address("0OIl", Err("bad".to_string())),
        Err(RpcError::Decode("invalid pubkey 0OIl: bad".to_string()))
    );
}
