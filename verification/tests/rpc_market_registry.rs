use keeper::base58::base58_decode;
use keeper::decoder::Pubkey32;
use keeper::rpc::market_registry::{
    substitute_env_vars, MarketEntry, MarketRegistry, RegistryError,
};

const PUBKEY_A: &str = "11111111111111111111111111111112";
const PUBKEY_B: &str = "Sysvar1nstructions1111111111111111111111111";
const PUBKEY_C: &str = "SysvarC1ock11111111111111111111111111111111";

fn pk32(b58: &str) -> Pubkey32 {
    let bytes = base58_decode(b58).unwrap();
    let mut out = [0u8; 32];
    out.copy_from_slice(&bytes);
    out
}

#[test]
fn parses_minimal_registry() {
    let toml = format!(
        "[[markets]]\nsymbol = \"SOL-USD\"\nprogram_id = \"{}\"\nmarket_pda = \"{}\"\nlock_pda = \"{}\"\n",
        PUBKEY_A, PUBKEY_B, PUBKEY_C,
    );
    let r = MarketRegistry::from_toml_str_with_env(&toml, |_| None).unwrap();
    assert_eq!(r.len(), 1);
    let m = &r.markets[0];
    assert_eq!(m.symbol, "SOL-USD");
    assert_eq!(m.program_id, pk32(PUBKEY_A));
    assert_eq!(m.market_pda, pk32(PUBKEY_B));
    assert_eq!(m.lock_pda, pk32(PUBKEY_C));
    assert_eq!(m.expected_leader, None);
}

#[test]
fn parses_two_markets_with_optional_expected_leader() {
    let toml = format!(
        "[[markets]]\nsymbol = \"SOL-USD\"\nprogram_id = \"{a}\"\nmarket_pda = \"{b}\"\nlock_pda = \"{c}\"\nexpected_leader = \"{a}\"\n\n# Second market — comments allowed.\n[[markets]]\nsymbol = \"BTC-USD\"\nprogram_id = \"{a}\"\nmarket_pda = \"{c}\"\nlock_pda = \"{b}\"\n",
        a = PUBKEY_A,
        b = PUBKEY_B,
        c = PUBKEY_C,
    );
    let r = MarketRegistry::from_toml_str_with_env(&toml, |_| None).unwrap();
    assert_eq!(r.len(), 2);
    assert_eq!(r.markets[0].symbol, "SOL-USD");
    assert!(r.markets[0].expected_leader.is_some());
    assert_eq!(r.markets[1].symbol, "BTC-USD");
    assert_eq!(r.markets[1].expected_leader, None);
    assert!(r.find_by_symbol("BTC-USD").is_some());
    assert!(r.find_by_symbol("UNKNOWN").is_none());
}

#[test]
fn rejects_empty_registry() {
    let r = MarketRegistry::from_toml_str_with_env("# nothing here\n", |_| None);
    assert_eq!(r.unwrap_err(), RegistryError::Empty);
}

#[test]
fn rejects_duplicate_symbol() {
    let toml = format!(
        "[[markets]]\nsymbol = \"SOL-USD\"\nprogram_id = \"{a}\"\nmarket_pda = \"{b}\"\nlock_pda = \"{c}\"\n[[markets]]\nsymbol = \"SOL-USD\"\nprogram_id = \"{a}\"\nmarket_pda = \"{b}\"\nlock_pda = \"{c}\"\n",
        a = PUBKEY_A,
        b = PUBKEY_B,
        c = PUBKEY_C,
    );
    let err = MarketRegistry::from_toml_str_with_env(&toml, |_| None).unwrap_err();
    assert!(matches!(err, RegistryError::DuplicateSymbol { .. }));
}

#[test]
fn rejects_missing_required_keys() {
    let toml = format!("[[markets]]\nsymbol = \"SOL-USD\"\nprogram_id = \"{}\"\n", PUBKEY_A);
    let err = MarketRegistry::from_toml_str_with_env(&toml, |_| None).unwrap_err();
    assert_eq!(
        err,
        RegistryError::MissingKey {
            index: 0,
            key: "market_pda",
        }
    );
}

#[test]
fn rejects_unknown_key() {
    let toml = format!(
        "[[markets]]\nsymbol = \"SOL-USD\"\nprogram_id = \"{}\"\nmarket_pda = \"{}\"\nlock_pda = \"{}\"\nfee_vault = \"oops\"\n",
        PUBKEY_A, PUBKEY_B, PUBKEY_C,
    );
    let err = MarketRegistry::from_toml_str_with_env(&toml, |_| None).unwrap_err();
    assert!(matches!(err, RegistryError::Toml { .. }));
}

#[test]
fn rejects_oversized_symbol() {
    let toml = format!(
        "[[markets]]\nsymbol = \"THIS_SYMBOL_IS_TOO_LONG_FOR_THE_16_BYTE_CAP\"\nprogram_id = \"{}\"\nmarket_pda = \"{}\"\nlock_pda = \"{}\"\n",
        PUBKEY_A, PUBKEY_B, PUBKEY_C,
    );
    let err = MarketRegistry::from_toml_str_with_env(&toml, |_| None).unwrap_err();
    assert!(matches!(err, RegistryError::InvalidSymbol { .. }));
}

#[test]
fn rejects_invalid_pubkey() {
    let toml = "[[markets]]\nsymbol = \"X\"\nprogram_id = \"NOT_BASE_58!!\"\nmarket_pda = \"NOT_BASE_58!!\"\nlock_pda = \"NOT_BASE_58!!\"\n";
    let err = MarketRegistry::from_toml_str_with_env(toml, |_| None).unwrap_err();
    assert!(matches!(err, RegistryError::InvalidPubkey { .. }));
}

#[test]
fn rejects_orphan_key() {
    let err = MarketRegistry::from_toml_str_with_env("symbol = \"X\"\n", |_| None).unwrap_err();
    assert!(matches!(err, RegistryError::Toml { .. }));
}

#[test]
fn accepts_inline_comments_after_strings() {
    let toml = format!(
        "[[markets]]\nsymbol = \"SOL-USD\" # primary market\nprogram_id = \"{}\"\nmarket_pda = \"{}\"\nlock_pda = \"{}\"\n",
        PUBKEY_A, PUBKEY_B, PUBKEY_C,
    );
    let r = MarketRegistry::from_toml_str_with_env(&toml, |_| None).unwrap();
    assert_eq!(r.markets[0].symbol, "SOL-USD");
}

#[test]
fn symbol_bytes_zero_pads_to_16() {
    let m = MarketEntry {
        symbol: "SOL-USD".to_string(),
        program_id: pk32(PUBKEY_A),
        market_pda: pk32(PUBKEY_B),
        lock_pda: pk32(PUBKEY_C),
        expected_leader: None,
    };
    let bytes = m.symbol_bytes();
    assert_eq!(&bytes[..7], b"SOL-USD");
    assert_eq!(&bytes[7..], &[0u8; 9]);
}

#[test]
fn lock_pda_omitted_falls_back_to_sentinel() {
    let toml = format!(
        "[[markets]]\nsymbol = \"X\"\nprogram_id = \"{}\"\nmarket_pda = \"{}\"\n",
        PUBKEY_A, PUBKEY_B,
    );
    let r = MarketRegistry::from_toml_str_with_env(&toml, |_| None).unwrap();
    assert_eq!(r.markets[0].lock_pda, [0xfe; 32]);
}

#[test]
fn substitute_env_vars_passes_through_when_no_refs() {
    let out = substitute_env_vars("plain text $literal$", &|_| None).unwrap();
    assert_eq!(out, "plain text $literal$");
}

#[test]
fn substitute_env_vars_replaces_simple_ref() {
    let out = substitute_env_vars("hello ${NAME}", &|n| {
        if n == "NAME" { Some("world".to_string()) } else { None }
    })
    .unwrap();
    assert_eq!(out, "hello world");
}

#[test]
fn substitute_env_vars_handles_double_dollar_escape() {
    let out = substitute_env_vars("price $$5.00", &|_| None).unwrap();
    assert_eq!(out, "price $5.00");
}

#[test]
fn substitute_env_vars_errors_on_unset() {
    let err = substitute_env_vars("${MISSING}", &|_| None).unwrap_err();
    match err {
        RegistryError::EnvVar { name } => assert_eq!(name, "MISSING"),
        other => panic!("expected EnvVar, got {other:?}"),
    }
}

#[test]
fn substitute_env_vars_errors_on_empty_value() {
    let err =
        substitute_env_vars("${E}", &|_| Some(String::new())).unwrap_err();
    match err {
        RegistryError::EnvVar { name } => assert_eq!(name, "E"),
        other => panic!("expected EnvVar, got {other:?}"),
    }
}

#[test]
fn substitute_env_vars_errors_on_unclosed_ref() {
    let err = substitute_env_vars("hi ${OPEN", &|_| None).unwrap_err();
    match err {
        RegistryError::MalformedEnvRef { detail, .. } => {
            assert!(detail.contains("unclosed"));
        }
        other => panic!("expected MalformedEnvRef, got {other:?}"),
    }
}

#[test]
fn substitute_env_vars_errors_on_empty_braces() {
    let err = substitute_env_vars("${}", &|_| None).unwrap_err();
    match err {
        RegistryError::MalformedEnvRef { detail, .. } => {
            assert!(detail.contains("empty"));
        }
        other => panic!("expected MalformedEnvRef, got {other:?}"),
    }
}

#[test]
fn substitute_env_vars_errors_on_invalid_chars() {
    let err = substitute_env_vars("${BAD-NAME}", &|_| None).unwrap_err();
    match err {
        RegistryError::MalformedEnvRef { detail, .. } => {
            assert!(detail.contains("invalid characters"));
        }
        other => panic!("expected MalformedEnvRef, got {other:?}"),
    }
}

#[test]
fn substitute_env_vars_starts_with_digit_rejected() {
    let err = substitute_env_vars("${1FOO}", &|_| None).unwrap_err();
    assert!(matches!(err, RegistryError::MalformedEnvRef { .. }));
}

#[test]
fn substitute_env_vars_underscore_prefix_accepted() {
    let out = substitute_env_vars("${_X}", &|n| {
        if n == "_X" { Some("ok".to_string()) } else { None }
    })
    .unwrap();
    assert_eq!(out, "ok");
}

#[test]
fn from_toml_str_with_env_substitutes_expected_leader() {
    let toml = format!(
        "[[markets]]\nsymbol = \"X\"\nprogram_id = \"{}\"\nmarket_pda = \"{}\"\n\
        lock_pda = \"{}\"\nexpected_leader = \"${{LEADER}}\"\n",
        PUBKEY_A, PUBKEY_B, PUBKEY_C,
    );
    let r = MarketRegistry::from_toml_str_with_env(&toml, |n| {
        if n == "LEADER" { Some(PUBKEY_A.to_string()) } else { None }
    })
    .unwrap();
    assert_eq!(r.markets[0].symbol, "X");
    assert!(r.markets[0].expected_leader.is_some());
}

#[test]
fn from_toml_str_surfaces_env_error_with_variable_name() {
    let toml = format!(
        "[[markets]]\nsymbol = \"X\"\nprogram_id = \"{}\"\nmarket_pda = \"${{UNSET}}\"\n",
        PUBKEY_A,
    );
    let err = MarketRegistry::from_toml_str_with_env(&toml, |_| None).unwrap_err();
    match err {
        RegistryError::EnvVar { name } => assert_eq!(name, "UNSET"),
        other => panic!("expected EnvVar(UNSET), got {other:?}"),
    }
}

#[test]
fn from_toml_str_with_env_supports_double_dollar_escape() {
    let toml = format!(
        "# price reference: $$5.00\n[[markets]]\nsymbol = \"X\"\nprogram_id = \"{}\"\n\
        market_pda = \"{}\"\nlock_pda = \"{}\"\n",
        PUBKEY_A, PUBKEY_B, PUBKEY_C,
    );
    let r = MarketRegistry::from_toml_str_with_env(&toml, |_| None).unwrap();
    assert_eq!(r.markets[0].symbol, "X");
}
