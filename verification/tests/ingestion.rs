use payment_backend::query::QueryError;
use payment_backend::service::PaymentService;

fn service() -> PaymentService {
    PaymentService::new(String::from("0xB51f94aEEebE55A3760E8169A22e536eBD3a6DCB"), 0)
}

const TWO_TRANSFERS: &str = "{\"jsonrpc\":\"2.0\",\"id\":0,\"result\":{\"transfers\":[{\"hash\":\"0xaa\",\"blockNum\":\"0x10\",\"value\":1.5},{\"hash\":\"0xbb\",\"blockNum\":\"0x12\",\"value\":2.0}]}}";

#[test]
fn concrete_scenario_two_transfers() {
    let mut s = service();
    let r = s.run_cycle(0, TWO_TRANSFERS);
    assert_eq!(r.ok(), Some(18));
    assert_eq!(s.get_last_fetched_block(), 18);
    let stored = s.get_transactions();
    assert_eq!(stored.len(), 2);
    assert_eq!(s.get_transaction_value(String::from("0xaa")), Some(1_500_000_000_000_000_000));
    assert_eq!(s.get_transaction_value(String::from("0xbb")), Some(2_000_000_000_000_000_000));
}

#[test]
fn idempotent_replay_leaves_store_unchanged() {
    let mut s = service();
    let r1 = s.run_cycle(0, TWO_TRANSFERS);
    assert!(r1.is_ok());
    let after_one = s.get_transactions();
    let r2 = s.run_cycle(0, TWO_TRANSFERS);
    assert!(r2.is_ok());
    let after_two = s.get_transactions();
    assert_eq!(after_one, after_two);
    assert_eq!(after_two.len(), 2);
}

#[test]
fn monotonic_cursor_across_cycles() {
    let mut s = service();
    let c1 = s.run_cycle(0, TWO_TRANSFERS).unwrap();
    let later = "{\"result\":{\"transfers\":[{\"hash\":\"0xcc\",\"blockNum\":\"0x2a\",\"value\":1}]}}";
    let c2 = s.run_cycle(c1, later).unwrap();
    assert!(c2 >= c1);
    assert_eq!(c2, 42);
    assert_eq!(s.get_last_fetched_block(), 42);
}

#[test]
fn empty_batch_is_a_noop() {
    let mut s = service();
    s.run_cycle(0, TWO_TRANSFERS).unwrap();
    let before = s.get_transactions();
    let cursor_before = s.get_last_fetched_block();
    let r = s.run_cycle(77, "{\"result\":{\"transfers\":[]}}");
    assert_eq!(r.ok(), Some(77));
    assert_eq!(s.get_transactions(), before);
    assert_eq!(s.get_last_fetched_block(), cursor_before);
}

#[test]
fn lookup_unknown_hash_is_absent() {
    let mut s = service();
    s.run_cycle(0, TWO_TRANSFERS).unwrap();
    assert_eq!(s.get_transaction_value(String::from("unknown")), None);
}

#[test]
fn decode_rejection_without_transfers_field() {
    let mut s = service();
    s.run_cycle(0, TWO_TRANSFERS).unwrap();
    let before = s.get_transactions();
    let cursor_before = s.get_last_fetched_block();
    let r = s.run_cycle(0, "{\"jsonrpc\":\"2.0\",\"id\":0,\"result\":{\"pageKey\":\"x\"}}");
    assert!(matches!(r, Err(QueryError::Decode(_))));
    assert_eq!(s.get_transactions(), before);
    assert_eq!(s.get_last_fetched_block(), cursor_before);
}

#[test]
fn decode_rejection_on_garbage_body() {
    let mut s = service();
    let r = s.run_cycle(0, "not json at all");
    assert!(matches!(r, Err(QueryError::Decode(_))));
    assert_eq!(s.get_transactions().len(), 0);
}

#[test]
fn transport_fault_is_surfaced_unchanged() {
    let mut s = service();
    let r = s.get_latest_external_transfer(5, Err(String::from("connection refused")));
    match r {
        Err(QueryError::Transport(m)) => assert_eq!(m, "connection refused"),
        _ => panic!("expected a transport fault"),
    }
    assert_eq!(s.get_transactions().len(), 0);
    assert_eq!(s.get_last_fetched_block(), 0);
}

#[test]
fn transport_success_runs_the_cycle() {
    let mut s = service();
    let r = s.get_latest_external_transfer(0, Ok(String::from(TWO_TRANSFERS)));
    assert_eq!(r.ok(), Some(18));
    assert_eq!(s.get_last_fetched_block(), 18);
}

#[test]
fn reobservation_overwrites_by_hash() {
    let mut s = service();
    s.run_cycle(0, TWO_TRANSFERS).unwrap();
    let updated = "{\"result\":{\"transfers\":[{\"hash\":\"0xaa\",\"blockNum\":\"0x10\",\"value\":1.5}]}}";
    s.run_cycle(0, updated).unwrap();
    assert_eq!(s.get_transactions().len(), 2);
    assert_eq!(s.get_transaction_value(String::from("0xaa")), Some(1_500_000_000_000_000_000));
}

#[test]
fn unknown_fields_are_tolerated() {
    let mut s = service();
    let body = "{\"jsonrpc\":\"2.0\",\"id\":0,\"result\":{\"pageKey\":null,\"transfers\":[{\"category\":[\"external\"],\"hash\":\"0xdd\",\"asset\":\"ETH\",\"blockNum\":\"0x1f\",\"value\":3,\"from\":\"0xabc\",\"to\":\"0xdef\",\"erc721TokenId\":null}]}}";
    let r = s.run_cycle(0, body);
    assert_eq!(r.ok(), Some(31));
    assert_eq!(s.get_transaction_value(String::from("0xdd")), Some(3_000_000_000_000_000_000));
}

#[test]
fn missing_required_field_is_a_decode_fault() {
    let mut s = service();
    let body = "{\"result\":{\"transfers\":[{\"blockNum\":\"0x10\",\"value\":1}]}}";
    assert!(matches!(s.run_cycle(0, body), Err(QueryError::Decode(_))));
}

#[test]
fn malformed_block_height_is_a_decode_fault() {
    let mut s = service();
    let body = "{\"result\":{\"transfers\":[{\"hash\":\"0xaa\",\"blockNum\":\"16\",\"value\":1}]}}";
    assert!(matches!(s.run_cycle(0, body), Err(QueryError::Decode(_))));
}

#[test]
fn request_body_shape() {
    let s = service();
    let body = s.build_request(16);
    assert_eq!(
        body,
        "{\"jsonrpc\":\"2.0\",\"id\":0,\"method\":\"alchemy_getAssetTransfers\",\"params\":[{\"fromBlock\":\"0x10\",\"toAddress\":\"0xB51f94aEEebE55A3760E8169A22e536eBD3a6DCB\",\"category\":[\"external\"]}]}"
    );
}

#[test]
fn stored_records_are_canonical_strings() {
    let mut s = service();
    s.run_cycle(0, TWO_TRANSFERS).unwrap();
    let stored = s.get_transactions();
    assert_eq!(
        stored[0],
        "{\"hash\":\"0xaa\",\"blockNum\":\"0x10\",\"from\":\"\",\"to\":\"\",\"value\":1500000000000000000}"
    );
}

#[test]
fn duplicate_hash_in_one_batch_keeps_last() {
    let mut s = service();
    let body = "{\"result\":{\"transfers\":[{\"hash\":\"0xaa\",\"blockNum\":\"0x10\",\"value\":1},{\"hash\":\"0xaa\",\"blockNum\":\"0x11\",\"value\":2}]}}";
    let r = s.run_cycle(0, body);
    assert_eq!(r.ok(), Some(17));
    assert_eq!(s.get_transactions().len(), 1);
    assert_eq!(s.get_transaction_value(String::from("0xaa")), Some(2_000_000_000_000_000_000));
}
