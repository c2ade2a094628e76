use log_kv::cache::Cache;
use log_kv::error::{Error, ErrorCode};
use log_kv::keys::{decode_key, encode_key};
use log_kv::log::WriteError;
use log_kv::map::{
    build_insert_request, build_remove_request, write_session_outcome, RetryDecision, RetryState,
    ServerAddr,
};
use log_kv::matrix::MatrixMul;
use log_kv::num::{i64_to_string, parse_i64, parse_u64, u64_to_string};
use log_kv::server::{snapshot_response_for, write_response_for};

#[test]
fn decimal_printing() {
    assert_eq!(u64_to_string(0), "0");
    assert_eq!(u64_to_string(1234567890), "1234567890");
    assert_eq!(u64_to_string(u64::MAX), "18446744073709551615");
    assert_eq!(i64_to_string(-42), "-42");
    assert_eq!(i64_to_string(0), "0");
    assert_eq!(i64_to_string(i64::MIN), "-9223372036854775808");
}

#[test]
fn decimal_parsing() {
    assert_eq!(parse_u64("0"), Some(0));
    assert_eq!(parse_u64("007"), Some(7));
    assert_eq!(parse_u64("18446744073709551615"), Some(u64::MAX));
    assert_eq!(parse_u64("18446744073709551616"), None);
    assert_eq!(parse_u64(""), None);
    assert_eq!(parse_u64("12a"), None);
    assert_eq!(parse_u64("-3"), None);
    assert_eq!(parse_i64("-42"), Some(-42));
    assert_eq!(parse_i64("9223372036854775807"), Some(i64::MAX));
    assert_eq!(parse_i64("9223372036854775808"), None);
    assert_eq!(parse_i64("-9223372036854775808"), Some(i64::MIN));
    assert_eq!(parse_i64("-9223372036854775809"), None);
    assert_eq!(parse_i64("-"), None);
    assert_eq!(parse_i64("+7"), None);
}

#[test]
fn key_encoding_round_trips() {
    assert_eq!(encode_key(1), "map:1");
    assert_eq!(encode_key(-2), "map:-2");
    assert_eq!(decode_key("map:123"), Some(123));
    assert_eq!(decode_key("map:-123"), Some(-123));
    assert_eq!(decode_key("map:"), None);
    assert_eq!(decode_key("other:1"), None);
    assert_eq!(decode_key("map:abc"), None);
    for k in [0i64, 7, -7, i64::MAX, i64::MIN] {
        assert_eq!(decode_key(&encode_key(k)), Some(k));
    }
}

#[test]
fn write_requests_carry_the_encoded_key() {
    let req = build_insert_request(7, "hi", 3, 9);
    assert_eq!(req.ordinal, 3);
    assert_eq!(req.key, "map:7");
    assert_eq!(req.value, b"hi".to_vec());
    assert_eq!(req.latest_known, 9);

    let tomb = build_remove_request(-4, 5, 11);
    assert_eq!(tomb.key, "map:-4");
    assert!(tomb.value.is_empty());
    assert_eq!(tomb.latest_known, 11);
}

#[test]
fn retry_backoff_doubles_until_giving_up() {
    let mut state = RetryState::new();
    assert_eq!(state.on_response(false), RetryDecision::RetryAfter(100));
    assert_eq!(state.on_response(false), RetryDecision::RetryAfter(200));
    assert_eq!(state.on_response(false), RetryDecision::RetryAfter(400));
    assert_eq!(state.on_response(false), RetryDecision::RetryAfter(800));
    assert_eq!(state.on_response(false), RetryDecision::GiveUp(5));

    let mut accepted = RetryState::new();
    assert_eq!(accepted.on_response(true), RetryDecision::Done);
}

#[test]
fn retry_budget_is_exactly_five_conflicts() {
    assert!(write_session_outcome(&vec![true]).is_ok());
    assert!(write_session_outcome(&vec![false, true]).is_ok());
    assert!(write_session_outcome(&vec![false, false, false, false, true]).is_ok());
    match write_session_outcome(&vec![false; 5]) {
        Err(Error::Conflict(n)) => assert_eq!(n, 5),
        _ => panic!("expected the budget to be spent"),
    }
    // A stream that closes before an answer is not a conflict.
    assert!(matches!(
        write_session_outcome(&Vec::new()),
        Err(Error::ConnectionClosed)
    ));
    assert!(matches!(
        write_session_outcome(&vec![false, false]),
        Err(Error::ConnectionClosed)
    ));
}

#[test]
fn error_messages_and_codes() {
    assert_eq!(
        Error::Conflict(5).message(),
        "write conflict after 5 retries"
    );
    assert_eq!(Error::ConnectionClosed.message(), "connection closed");
    assert_eq!(
        Error::Transport("refused".to_string()).message(),
        "gRPC transport error: refused"
    );
    assert_eq!(ErrorCode::from(Error::Conflict(5)), ErrorCode::InsertError);
    assert_eq!(
        ErrorCode::from(Error::Transport(String::new())),
        ErrorCode::ConnectError
    );
    assert_eq!(
        ErrorCode::from(Error::Status(String::new())),
        ErrorCode::GetError
    );
    assert_eq!(
        ErrorCode::from(Error::ConnectionClosed),
        ErrorCode::InternalError
    );
    assert_eq!(ErrorCode::Success.code(), 0);
    assert_eq!(ErrorCode::NullPointer.code(), 1);
    assert_eq!(ErrorCode::InvalidUtf8.code(), 2);
    assert_eq!(ErrorCode::RemoveError.code(), 6);
    assert_eq!(ErrorCode::InternalError.code(), 99);
}

#[test]
fn server_addr_wraps_strings() {
    let a = ServerAddr::from("localhost:50051");
    assert_eq!(a.0, "localhost:50051");
    let b = ServerAddr::from("addr".to_string());
    assert_eq!(b.0, "addr");
}

#[test]
fn write_responses_follow_the_facade_rules() {
    let ok = write_response_for(Ok(3));
    assert!(ok.accepted);
    assert_eq!(ok.assigned_ordinal, 3);
    assert_eq!(ok.error, "");

    let conflict = write_response_for(Err(WriteError::Conflict(7)));
    assert!(!conflict.accepted);
    assert_eq!(conflict.assigned_ordinal, 7);
    assert_eq!(conflict.error, "Conflict: latest ordinal is 7");

    let store = write_response_for(Err(WriteError::Sql("boom".to_string())));
    assert!(!store.accepted);
    assert_eq!(store.assigned_ordinal, 0);
    assert_eq!(store.error, "Database error: boom");

    let snap = write_response_for(Err(WriteError::Snapshot("disk".to_string())));
    assert!(!snap.accepted);
    assert_eq!(snap.assigned_ordinal, 0);
    assert_eq!(snap.error, "Snapshot error: disk");
}

#[test]
fn snapshot_responses_encode_absence_as_zero() {
    let none = snapshot_response_for(None);
    assert_eq!(none.snapshot_ordinal, 0);
    assert!(none.snapshot_data.is_empty());

    let some = snapshot_response_for(Some((5, b"img".to_vec())));
    assert_eq!(some.snapshot_ordinal, 5);
    assert_eq!(some.snapshot_data, b"img".to_vec());
}

#[test]
fn matrix_key_layout() {
    let mut mm = MatrixMul::new();
    mm.set_size(2, 3, 2);
    assert_eq!(mm.a_row_key(0), -1);
    assert_eq!(mm.a_row_key(1), -2);
    assert_eq!(mm.b_row_key(0), -3);
    assert_eq!(mm.b_row_key(2), -5);
    assert_eq!(mm.result_key(0, 0), 1);
    assert_eq!(mm.result_key(1, 1), 4);
}

#[test]
fn matrix_completion_tracks_result_cells() {
    let mut mm = MatrixMul::new();
    assert!(!mm.is_complete(&Cache::new()));
    mm.set_size(2, 2, 2);
    let mut cache = Cache::new();
    assert!(!mm.is_complete(&cache));
    for key in 1..=3i64 {
        cache.insert(key, "v".to_string());
    }
    assert_eq!(mm.count_results(&cache), 3);
    assert!(!mm.is_complete(&cache));
    cache.insert(4, "v".to_string());
    assert_eq!(mm.count_results(&cache), 4);
    assert!(mm.is_complete(&cache));
}

#[test]
fn picking_a_task_avoids_computed_cells() {
    let mut mm = MatrixMul::new();
    assert_eq!(mm.pick_random_task(&Cache::new()), None);
    mm.set_size(1, 1, 1);
    // The only cell is free, so the draw must land on it.
    assert_eq!(mm.pick_random_task(&Cache::new()), Some((0, 0)));
    let mut done = Cache::new();
    done.insert(1, "done".to_string());
    assert_eq!(mm.pick_random_task(&done), None);
}
