use base64::Engine;
use keeper::rpc::fetcher::RpcError;
use keeper::rpc::solana::{classify_client_error, decode_account_data_blob, AccountDataBlob};

#[test]
fn decode_account_data_blob_round_trip_base64() {
    let want: Vec<u8> = (0..32u8).collect();
    let encoded = base64::engine::general_purpose::STANDARD.encode(&want);
    let blob = AccountDataBlob::Array(vec![Some(encoded), Some("base64".to_string())]);
    let got = decode_account_data_blob(&blob).expect("decode");
    assert_eq!(got, want);
}

#[test]
fn decode_account_data_blob_rejects_unsupported_encoding() {
    let blob = AccountDataBlob::Array(vec![Some("abcdef".to_string()), Some("base64+zstd".to_string())]);
    let r = decode_account_data_blob(&blob);
    assert!(matches!(r, Err(RpcError::Decode(_))));

    let blob = AccountDataBlob::Array(vec![Some("abcdef".to_string()), Some("base58".to_string())]);
    let r = decode_account_data_blob(&blob);
    assert!(matches!(r, Err(RpcError::Decode(_))));
}

#[test]
fn decode_account_data_blob_rejects_malformed_shape() {
    let blob = AccountDataBlob::NotAnArray;
    assert!(matches!(
        decode_account_data_blob(&blob),
        Err(RpcError::Decode(_))
    ));

    let blob = AccountDataBlob::Array(vec![Some("only-one-element".to_string())]);
    assert!(matches!(
        decode_account_data_blob(&blob),
        Err(RpcError::Decode(_))
    ));

    let blob = AccountDataBlob::Array(vec![None, Some("base64".to_string())]);
    assert!(matches!(
        decode_account_data_blob(&blob),
        Err(RpcError::Decode(_))
    ));
}

#[test]
fn classify_client_error_distinguishes_transport_vs_code() {
    let happy_transport = "io error: connection refused";
    assert!(!happy_transport.contains("RPC response error"));
    let happy_code = "RPC response error -32602: Invalid params";
    assert!(happy_code.contains("RPC response error"));
    assert_eq!(
        classify_client_error(happy_transport.to_string()),
        RpcError::Transport(happy_transport.to_string())
    );
    assert!(matches!(classify_client_error(happy_code.to_string()), RpcError::Code { .. }));
}

