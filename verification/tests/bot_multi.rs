use keeper::bot::leader::HostMirrorLeaderPolicy;
use keeper::bot::metrics::{KeeperMetrics, LeaderStatus};
use keeper::bot::multi::{MarketRegistry, MarketSlot};
use keeper::bot::run::{LeaderRpcReconcileConfig, MarketSlotState};
use keeper::bot::{BotConfig, KeeperBot};
use keeper::decoder::leader_lock::KeeperLeaderLock;
use keeper::decoder::Pubkey32;
use keeper::rpc::market_registry::MarketRegistry as ConfigRegistry;
use keeper::rpc::snapshot::MarketContext;

fn dummy_ctx(market: Pubkey32) -> MarketContext {
    MarketContext {
        program_id: [0xa1; 32],
        market,
        market_symbol: [0u8; 16],
        sub_pools: vec![],
    }
}

#[test]
fn from_config_with_fans_out_slots() {
    const PUBKEY_A: &str = "11111111111111111111111111111112";
    const PUBKEY_B: &str = "Sysvar1nstructions1111111111111111111111111";
    const PUBKEY_C: &str = "SysvarC1ock11111111111111111111111111111111";
    let toml = format!(
        "[[markets]]\nsymbol = \"SOL-USD\"\nprogram_id = \"{a}\"\nmarket_pda = \"{b}\"\nlock_pda = \"{c}\"\n[[markets]]\nsymbol = \"BTC-USD\"\nprogram_id = \"{a}\"\nmarket_pda = \"{c}\"\nlock_pda = \"{b}\"\n",
        a = PUBKEY_A,
        b = PUBKEY_B,
        c = PUBKEY_C,
    );
    let cfg = ConfigRegistry::from_toml_str_with_env(&toml, |_| None).expect("parse");
    let runtime = MarketRegistry::from_config_with(&cfg, |entry| {
        Ok(MarketSlot {
            label: entry.symbol.clone(),
            ctx: dummy_ctx(entry.market_pda),
            rpc_cfg: LeaderRpcReconcileConfig {
                reconcile_every: Some(1),
                lock_pda: entry.lock_pda,
                heartbeat_every: Some(5),
                release_on_shutdown: true,
            },
            bot: KeeperBot::new(BotConfig::default()),
            metrics: KeeperMetrics::new(),
            policy: HostMirrorLeaderPolicy::new(
                [0u8; 32],
                KeeperLeaderLock::fresh(0, 75),
            ),
            state: MarketSlotState::default(),
        })
    })
    .expect("bridge ok");
    assert_eq!(runtime.len(), 2);
    assert_eq!(runtime.slots()[0].label, "SOL-USD");
    assert_eq!(runtime.slots()[1].label, "BTC-USD");
    assert_eq!(runtime.slots()[0].ctx.market, runtime.slots()[1].rpc_cfg.lock_pda);
    assert_eq!(
        runtime.slots()[0].rpc_cfg.lock_pda,
        cfg.markets[0].lock_pda
    );
}

#[test]
fn from_config_with_propagates_closure_errors() {
    const PUBKEY_A: &str = "11111111111111111111111111111112";
    const PUBKEY_B: &str = "Sysvar1nstructions1111111111111111111111111";
    const PUBKEY_C: &str = "SysvarC1ock11111111111111111111111111111111";
    let toml = format!(
        "[[markets]]\nsymbol = \"SOL-USD\"\nprogram_id = \"{a}\"\nmarket_pda = \"{b}\"\nlock_pda = \"{c}\"\n",
        a = PUBKEY_A,
        b = PUBKEY_B,
        c = PUBKEY_C,
    );
    let cfg = ConfigRegistry::from_toml_str_with_env(&toml, |_| None).expect("parse");
    let result = MarketRegistry::from_config_with(&cfg, |_| {
        Err::<MarketSlot, _>("simulated rpc unreachable".to_string())
    });
    match result {
        Err(err) => {
            assert!(err.contains("SOL-USD"), "{err}");
            assert!(err.contains("simulated rpc unreachable"), "{err}");
        }
        Ok(_) => panic!("expected Err but got Ok"),
    }
}

fn build_two_slot_registry() -> MarketRegistry {
    const PUBKEY_A: &str = "11111111111111111111111111111112";
    const PUBKEY_B: &str = "Sysvar1nstructions1111111111111111111111111";
    const PUBKEY_C: &str = "SysvarC1ock11111111111111111111111111111111";
    let toml = format!(
        "[[markets]]\nsymbol = \"SOL-USD\"\nprogram_id = \"{a}\"\nmarket_pda = \"{b}\"\nlock_pda = \"{c}\"\n[[markets]]\nsymbol = \"BTC-USD\"\nprogram_id = \"{a}\"\nmarket_pda = \"{c}\"\nlock_pda = \"{b}\"\n",
        a = PUBKEY_A,
        b = PUBKEY_B,
        c = PUBKEY_C,
    );
    let cfg = ConfigRegistry::from_toml_str_with_env(&toml, |_| None).expect("parse");
    MarketRegistry::from_config_with(&cfg, |entry| {
        Ok(MarketSlot {
            label: entry.symbol.clone(),
            ctx: dummy_ctx(entry.market_pda),
            rpc_cfg: LeaderRpcReconcileConfig {
                reconcile_every: Some(1),
                lock_pda: entry.lock_pda,
                heartbeat_every: Some(5),
                release_on_shutdown: true,
            },
            bot: KeeperBot::new(BotConfig::default()),
            metrics: KeeperMetrics::new(),
            policy: HostMirrorLeaderPolicy::new(
                [0u8; 32],
                KeeperLeaderLock::fresh(0, 75),
            ),
            state: MarketSlotState::default(),
        })
    })
    .expect("bridge")
}

#[test]
fn render_per_market_json_emits_array_with_one_element_per_slot() {
    let reg = build_two_slot_registry();
    let json = reg.render_per_market_json();
    assert!(json.starts_with('[') && json.ends_with(']'));
    assert!(json.contains("\"market\":\"SOL-USD\""));
    assert!(json.contains("\"market\":\"BTC-USD\""));
    assert_eq!(
        json.matches("\"metrics\":").count(),
        2,
        "expected one metrics object per market"
    );
}

#[test]
fn render_per_market_json_records_per_slot_state_independently() {
    let mut reg = build_two_slot_registry();
    reg.slots_mut()[0].metrics.observe_boot(1_700_000_001);
    reg.slots_mut()[0]
        .metrics
        .set_leader_status(LeaderStatus::Leader);
    reg.slots_mut()[1].metrics.observe_boot(1_700_000_002);
    reg.slots_mut()[1]
        .metrics
        .set_leader_status(LeaderStatus::Standby);
    let json = reg.render_per_market_json();
    let sol_idx = json.find("SOL-USD").unwrap();
    let btc_idx = json.find("BTC-USD").unwrap();
    let sol = &json[sol_idx..btc_idx];
    let btc = &json[btc_idx..];
    assert!(
        sol.contains("\"leaderStatus\":\"leader\""),
        "SOL-USD should be leader: {sol}"
    );
    assert!(
        btc.contains("\"leaderStatus\":\"standby\""),
        "BTC-USD should be standby: {btc}"
    );
    assert!(sol.contains("\"upSinceUnixSecs\":1700000001"));
    assert!(btc.contains("\"upSinceUnixSecs\":1700000002"));
}

#[test]
fn render_per_market_json_handles_empty_registry() {
    let reg = MarketRegistry::new();
    assert_eq!(reg.render_per_market_json(), "[]");
}
