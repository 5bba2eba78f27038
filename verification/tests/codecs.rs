use payment_backend::hex::{hex_to_u64, u64_to_hex};
use payment_backend::record::{record_from_string, record_to_string, TransferRecord};
use payment_backend::task::{dispatch, Task, TaskQueue};
use payment_backend::query::decode_transfers_response;

#[test]
fn hex_encodes_like_the_upstream() {
    assert_eq!(u64_to_hex(0), "0x0");
    assert_eq!(u64_to_hex(16), "0x10");
    assert_eq!(u64_to_hex(18), "0x12");
    assert_eq!(u64_to_hex(u64::MAX), "0xffffffffffffffff");
}

#[test]
fn hex_parses_both_cases_and_rejects_malformed() {
    assert_eq!(hex_to_u64("0x10"), Some(16));
    assert_eq!(hex_to_u64("0x0"), Some(0));
    assert_eq!(hex_to_u64("0xFF"), Some(255));
    assert_eq!(hex_to_u64("0xffffffffffffffff"), Some(u64::MAX));
    assert_eq!(hex_to_u64("0x"), None);
    assert_eq!(hex_to_u64("10"), None);
    assert_eq!(hex_to_u64("0xg1"), None);
    assert_eq!(hex_to_u64("0x10000000000000000"), None);
}

#[test]
fn hex_round_trips() {
    for n in [0u64, 1, 15, 16, 255, 1 << 40, u64::MAX] {
        assert_eq!(hex_to_u64(&u64_to_hex(n)), Some(n));
    }
}

#[test]
fn record_round_trips_through_canonical_form() {
    let rec = TransferRecord {
        hash: String::from("0xabc123"),
        block_num: String::from("0x2a"),
        value: 1_500_000_000_000_000_000,
        from: String::from("0xsender"),
        to: String::from("0xrecipient"),
    };
    let s = record_to_string(&rec);
    let back = record_from_string(&s).unwrap();
    assert_eq!(back.hash, rec.hash);
    assert_eq!(back.block_num, rec.block_num);
    assert_eq!(back.value, rec.value);
    assert_eq!(back.from, rec.from);
    assert_eq!(back.to, rec.to);
}

#[test]
fn record_parse_rejects_malformed_text() {
    assert!(record_from_string("").is_none());
    assert!(record_from_string("{}").is_none());
    assert!(record_from_string("{\"hash\":\"x\"}").is_none());
    let good = "{\"hash\":\"a\",\"blockNum\":\"0x1\",\"from\":\"b\",\"to\":\"c\",\"value\":7}";
    assert!(record_from_string(good).is_some());
    let trailing = "{\"hash\":\"a\",\"blockNum\":\"0x1\",\"from\":\"b\",\"to\":\"c\",\"value\":7} ";
    assert!(record_from_string(trailing).is_none());
}

#[test]
fn task_bytes_round_trip_each_stage() {
    let tasks = [
        Task::FetchTransfers(String::from("0x10")),
        Task::FetchTransactionValue(String::from("0xaa")),
        Task::FetchTransactionReceipt(String::from("0xbb")),
        Task::VerifyTransaction(String::from("0xcc")),
    ];
    for t in tasks {
        let bytes = t.to_bytes();
        let back = Task::from_bytes(&bytes).unwrap();
        let same = match (&t, &back) {
            (Task::FetchTransfers(a), Task::FetchTransfers(b)) => a == b,
            (Task::FetchTransactionValue(a), Task::FetchTransactionValue(b)) => a == b,
            (Task::FetchTransactionReceipt(a), Task::FetchTransactionReceipt(b)) => a == b,
            (Task::VerifyTransaction(a), Task::VerifyTransaction(b)) => a == b,
            _ => false,
        };
        assert!(same);
    }
}

#[test]
fn task_bytes_reject_unknown_tags() {
    assert!(Task::from_bytes(&vec![]).is_none());
    assert!(Task::from_bytes(&vec![0u8]).is_none());
    assert!(Task::from_bytes(&vec![5u8, 48]).is_none());
    assert!(Task::from_bytes(&vec![1u8, 200]).is_none());
    assert!(Task::from_bytes(&vec![1u8, 48, 120]).is_some());
}

#[test]
fn dispatch_has_no_wired_successors() {
    assert!(dispatch(&Task::FetchTransfers(String::from("0x0"))).is_none());
    assert!(dispatch(&Task::FetchTransactionValue(String::from("h"))).is_none());
    assert!(dispatch(&Task::FetchTransactionReceipt(String::from("h"))).is_none());
    assert!(dispatch(&Task::VerifyTransaction(String::from("h"))).is_none());
}

#[test]
fn queue_admits_one_outstanding_poll() {
    let mut q = TaskQueue::new();
    assert!(q.trigger_poll(16));
    assert_eq!(q.len(), 1);
    assert!(!q.trigger_poll(17));
    assert_eq!(q.len(), 1);
    let t = q.dequeue().unwrap();
    match t {
        Task::FetchTransfers(hint) => assert_eq!(hint, "0x10"),
        _ => panic!("expected the poll stage"),
    }
    assert_eq!(q.len(), 0);
    assert!(q.dequeue().is_none());
    assert!(q.trigger_poll(18));
    assert_eq!(q.len(), 1);
}

#[test]
fn value_bounds_through_the_decoder() {
    // Nineteen integer digits are accepted; twenty are rejected.
    let ok = "{\"result\":{\"transfers\":[{\"hash\":\"0xaa\",\"blockNum\":\"0x1\",\"value\":9999999999999999999}]}}";
    let recs = decode_transfers_response(ok).unwrap();
    assert_eq!(recs[0].value, 9_999_999_999_999_999_999_000_000_000_000_000_000);
    let too_big = "{\"result\":{\"transfers\":[{\"hash\":\"0xaa\",\"blockNum\":\"0x1\",\"value\":10000000000000000000}]}}";
    assert!(decode_transfers_response(too_big).is_err());
    // Eighteen fraction digits are accepted; nineteen are rejected.
    let frac_ok = "{\"result\":{\"transfers\":[{\"hash\":\"0xaa\",\"blockNum\":\"0x1\",\"value\":0.000000000000000001}]}}";
    let recs = decode_transfers_response(frac_ok).unwrap();
    assert_eq!(recs[0].value, 1);
    let frac_long = "{\"result\":{\"transfers\":[{\"hash\":\"0xaa\",\"blockNum\":\"0x1\",\"value\":0.0000000000000000001}]}}";
    assert!(decode_transfers_response(frac_long).is_err());
}

#[test]
fn decoded_records_carry_their_fields() {
    let body = "{\"result\":{\"transfers\":[{\"from\":\"0xs\",\"to\":\"0xr\",\"value\":2.5,\"hash\":\"0xh\",\"blockNum\":\"0x9\"}]}}";
    let recs = decode_transfers_response(body).unwrap();
    assert_eq!(recs.len(), 1);
    assert_eq!(recs[0].hash, "0xh");
    assert_eq!(recs[0].block_num, "0x9");
    assert_eq!(recs[0].from, "0xs");
    assert_eq!(recs[0].to, "0xr");
    assert_eq!(recs[0].value, 2_500_000_000_000_000_000);
}
