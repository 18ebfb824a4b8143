//! Unit tests of the pure computation: the weighted estimate, key
//! construction, identifier validation, and the error paths of the batch
//! builders and reply interpreters.

use rate_limiter::fixed;
use rate_limiter::keys::{build_log_key, build_window_key, check_ident, u64_to_decimal};
use rate_limiter::sliding_log;
use rate_limiter::sliding_window;
use rate_limiter::store::{single_count_reply, StoreReply};
use rate_limiter::window::sliding_window_count;
use rate_limiter::RateError;

#[test]
fn calculate_sliding_window_count() {
    // 1800 ms into epoch time with a 1 s window: the previous window's
    // weight is 0.2, so 3 + round(5 * 0.2) = 4.
    assert_eq!(sliding_window_count(Some(5), Some(3), 1800, 1), 4);
}

#[test]
fn estimate_rounds_ties_to_even() {
    // Halfway through the window the weight is exactly 0.5.
    // 5 * 0.5 = 2.5 rounds down to the even 2; 3 * 0.5 = 1.5 rounds up to 2.
    assert_eq!(sliding_window_count(Some(5), Some(0), 1500, 1), 2);
    assert_eq!(sliding_window_count(Some(3), Some(0), 1500, 1), 2);
    assert_eq!(sliding_window_count(Some(1), Some(0), 1500, 1), 0);
}

#[test]
fn estimate_of_absent_counters_is_zero() {
    assert_eq!(sliding_window_count(None, None, 123_456, 5), 0);
    assert_eq!(sliding_window_count(None, Some(7), 123_456, 5), 7);
    // At the very start of a window the previous window counts in full.
    assert_eq!(sliding_window_count(Some(4), None, 2000, 1), 4);
}

#[test]
fn estimate_is_bounded_and_decays() {
    // Within one window the estimate never increases with time and always
    // stays between the current count and current + previous.
    let mut last = u64::MAX;
    for step in 0..10u64 {
        let now = 7000 + step * 100;
        let est = sliding_window_count(Some(7), Some(2), now, 1);
        assert!(est <= last);
        assert!((2..=9).contains(&est));
        last = est;
    }
    assert_eq!(sliding_window_count(Some(7), Some(2), 7000, 1), 9);
    assert_eq!(sliding_window_count(Some(7), Some(2), 7999, 1), 2);
}

#[test]
fn decimal_rendering() {
    assert_eq!(u64_to_decimal(0), "0");
    assert_eq!(u64_to_decimal(7), "7");
    assert_eq!(u64_to_decimal(1_234_567_890), "1234567890");
    assert_eq!(u64_to_decimal(u64::MAX), "18446744073709551615");
}

#[test]
fn keys_are_deterministic() {
    assert_eq!(build_window_key("rate-limit", "api", "alice", 60), "rate-limit:api:alice:60");
    assert_eq!(build_window_key("rate-limit", "api", "alice", 60), build_window_key("rate-limit", "api", "alice", 60));
    assert_ne!(build_window_key("rate-limit", "api", "alice", 60), build_window_key("rate-limit", "api", "alice", 120));
    assert_eq!(build_log_key("rate-limit", "api", "alice"), "rate-limit:api:alice");
}

#[test]
fn identifiers_with_delimiter_are_invalid() {
    assert!(check_ident("api"));
    assert!(check_ident(""));
    assert!(!check_ident("a:b"));
    assert!(!check_ident(":"));
}

#[test]
fn builders_reject_invalid_arguments() {
    assert!(matches!(
        fixed::record_fixed_window("api", "alice", 0, 100),
        Err(RateError::InvalidArgument)
    ));
    assert!(matches!(
        fixed::fetch_fixed_window("a:b", "alice", 1, 100),
        Err(RateError::InvalidArgument)
    ));
    assert!(matches!(
        sliding_log::record_sliding_log("api", "al:ice", 1, 100),
        Err(RateError::InvalidArgument)
    ));
    assert!(matches!(
        sliding_log::record_sliding_log("api", "alice", u64::MAX / 1000 + 1, 100),
        Err(RateError::InvalidArgument)
    ));
    assert!(matches!(
        sliding_log::fetch_sliding_log("api", ":"),
        Err(RateError::InvalidArgument)
    ));
    assert!(matches!(
        sliding_window::record_sliding_window("api", "alice", 0, 100),
        Err(RateError::InvalidArgument)
    ));
    assert!(matches!(
        sliding_window::fetch_sliding_window("api", "alice", u64::MAX, 100),
        Err(RateError::InvalidArgument)
    ));
}

#[test]
fn interpreters_reject_unexpected_reply_shapes() {
    let empty: Vec<StoreReply> = Vec::new();
    assert!(matches!(single_count_reply(&empty), Err(RateError::UnexpectedReply)));
    let wrong = vec![StoreReply::OptUint(Some(3))];
    assert!(matches!(single_count_reply(&wrong), Err(RateError::UnexpectedReply)));
    let two = vec![StoreReply::Uint(1), StoreReply::Uint(2)];
    assert!(matches!(single_count_reply(&two), Err(RateError::UnexpectedReply)));
    let not_opt = vec![StoreReply::Uint(3)];
    assert!(matches!(
        fixed::fetch_fixed_window_count(&not_opt),
        Err(RateError::UnexpectedReply)
    ));
    // A record batch in a window with a previous epoch keeps two replies.
    let short = vec![StoreReply::Uint(3)];
    assert!(matches!(
        sliding_window::record_sliding_window_count(&short, 5000, 1),
        Err(RateError::UnexpectedReply)
    ));
    let not_list = vec![StoreReply::Uint(3)];
    assert!(matches!(
        sliding_window::fetch_sliding_window_count(&not_list, 5000, 1),
        Err(RateError::UnexpectedReply)
    ));
}

#[test]
fn interpreters_read_counts() {
    let one = vec![StoreReply::Uint(41)];
    assert_eq!(single_count_reply(&one), Ok(41));
    let absent = vec![StoreReply::OptUint(None)];
    assert_eq!(fixed::fetch_fixed_window_count(&absent), Ok(0));
    let present = vec![StoreReply::OptUint(Some(9))];
    assert_eq!(fixed::fetch_fixed_window_count(&present), Ok(9));
}
