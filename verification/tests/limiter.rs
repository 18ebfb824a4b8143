//! End-to-end scenarios: the limiter's batches executed against an
//! in-memory store that honours the collaborator contract — atomic
//! batches, replies in call order, suppressed replies dropped.

use std::collections::{BTreeSet, HashMap};

use rate_limiter::fixed;
use rate_limiter::sliding_log;
use rate_limiter::sliding_window;
use rate_limiter::store::{single_count_reply, PlannedCommand, StoreCommand, StoreReply};

/// An in-memory counting store: integer counters and self-scored sorted
/// sets, no expiry (every scenario here finishes well inside a window's
/// time-to-live).
struct MemStore {
    counters: HashMap<String, u64>,
    logs: HashMap<String, BTreeSet<u64>>,
}

impl MemStore {
    fn new() -> MemStore {
        MemStore { counters: HashMap::new(), logs: HashMap::new() }
    }

    fn run(&mut self, batch: &[PlannedCommand]) -> Vec<StoreReply> {
        let mut replies = Vec::new();
        for pc in batch {
            let reply = match &pc.cmd {
                StoreCommand::IncrBy { key, amount } => {
                    let c = self.counters.entry(key.clone()).or_insert(0);
                    *c += amount;
                    StoreReply::Uint(*c)
                }
                StoreCommand::Expire { .. } => StoreReply::Uint(1),
                StoreCommand::Get { key } => {
                    StoreReply::OptUint(self.counters.get(key).copied())
                }
                StoreCommand::MGet { keys } => StoreReply::OptUints(
                    keys.iter().map(|k| self.counters.get(k).copied()).collect(),
                ),
                StoreCommand::ZRemUpTo { key, max_score } => {
                    let max = *max_score;
                    let set = self.logs.entry(key.clone()).or_default();
                    set.retain(|m| *m > max);
                    StoreReply::Uint(0)
                }
                StoreCommand::ZAdd { key, member } => {
                    self.logs.entry(key.clone()).or_default().insert(*member);
                    StoreReply::Uint(1)
                }
                StoreCommand::ZCard { key } => StoreReply::Uint(
                    self.logs.get(key).map(|s| s.len() as u64).unwrap_or(0),
                ),
            };
            if pc.keep {
                replies.push(reply);
            }
        }
        replies
    }
}

fn record_fixed(store: &mut MemStore, size_secs: u64, now_secs: u64) -> u64 {
    let batch = fixed::record_fixed_window("api", "alice", size_secs, now_secs).unwrap();
    let replies = store.run(&batch);
    single_count_reply(&replies).unwrap()
}

fn fetch_fixed(store: &mut MemStore, size_secs: u64, now_secs: u64) -> u64 {
    let batch = fixed::fetch_fixed_window("api", "alice", size_secs, now_secs).unwrap();
    let replies = store.run(&batch);
    fixed::fetch_fixed_window_count(&replies).unwrap()
}

fn record_log(store: &mut MemStore, size_secs: u64, now_millis: u64) -> u64 {
    let batch = sliding_log::record_sliding_log("api", "alice", size_secs, now_millis).unwrap();
    let replies = store.run(&batch);
    single_count_reply(&replies).unwrap()
}

fn fetch_log(store: &mut MemStore) -> u64 {
    let batch = sliding_log::fetch_sliding_log("api", "alice").unwrap();
    let replies = store.run(&batch);
    single_count_reply(&replies).unwrap()
}

fn record_sliding(store: &mut MemStore, size_secs: u64, now_millis: u64) -> u64 {
    let batch =
        sliding_window::record_sliding_window("api", "alice", size_secs, now_millis).unwrap();
    let replies = store.run(&batch);
    sliding_window::record_sliding_window_count(&replies, now_millis, size_secs).unwrap()
}

fn fetch_sliding(store: &mut MemStore, size_secs: u64, now_millis: u64) -> u64 {
    let batch =
        sliding_window::fetch_sliding_window("api", "alice", size_secs, now_millis).unwrap();
    let replies = store.run(&batch);
    sliding_window::fetch_sliding_window_count(&replies, now_millis, size_secs).unwrap()
}

const BASE_SECS: u64 = 1_600_000_000;
const BASE_MILLIS: u64 = 1_600_000_000_000;

#[test]
fn fixed_window_counts_in_order_then_resets() {
    // Three records inside one 1 s window return their ordinals; one more
    // after the boundary starts a fresh counter.
    let mut store = MemStore::new();
    for i in 1..=3u64 {
        assert_eq!(record_fixed(&mut store, 1, BASE_SECS), i);
    }
    assert_eq!(record_fixed(&mut store, 1, BASE_SECS + 1), 1);
}

#[test]
fn fixed_window_fetch_reads_without_counting() {
    let mut store = MemStore::new();
    assert_eq!(fetch_fixed(&mut store, 1, BASE_SECS), 0);
    record_fixed(&mut store, 1, BASE_SECS);
    record_fixed(&mut store, 1, BASE_SECS);
    assert_eq!(fetch_fixed(&mut store, 1, BASE_SECS), 2);
    assert_eq!(fetch_fixed(&mut store, 1, BASE_SECS), 2);
    // The next window's counter is its own key.
    assert_eq!(fetch_fixed(&mut store, 1, BASE_SECS + 1), 0);
}

#[test]
fn sliding_log_counts_trailing_window() {
    // Three events 300 ms apart inside a 1 s window; a fetch sees all
    // three; a record 900 ms later sees only the last survivor plus
    // itself.
    let mut store = MemStore::new();
    assert_eq!(record_log(&mut store, 1, BASE_MILLIS), 1);
    assert_eq!(record_log(&mut store, 1, BASE_MILLIS + 300), 2);
    assert_eq!(record_log(&mut store, 1, BASE_MILLIS + 600), 3);
    assert_eq!(fetch_log(&mut store), 3);
    assert_eq!(record_log(&mut store, 1, BASE_MILLIS + 1500), 2);
}

#[test]
fn sliding_log_record_after_idle_counts_itself() {
    let mut store = MemStore::new();
    assert_eq!(record_log(&mut store, 1, BASE_MILLIS), 1);
    assert_eq!(record_log(&mut store, 1, BASE_MILLIS + 200), 2);
    // Longer than the window since the last event: everything is trimmed.
    assert_eq!(record_log(&mut store, 1, BASE_MILLIS + 2500), 1);
    assert_eq!(fetch_log(&mut store), 1);
}

#[test]
fn sliding_log_keeps_boundary_entry() {
    // An entry at exactly now - size is not yet stale: the trim removes
    // only strictly older entries.
    let mut store = MemStore::new();
    assert_eq!(record_log(&mut store, 1, BASE_MILLIS), 1);
    assert_eq!(record_log(&mut store, 1, BASE_MILLIS + 1000), 2);
    // At the third call the second entry sits exactly on the boundary
    // and stays; the first is strictly older and is trimmed.
    assert_eq!(record_log(&mut store, 1, BASE_MILLIS + 2000), 2);
}

#[test]
fn sliding_log_same_millisecond_collapses() {
    // A timestamp is its own rank: two events in one millisecond are
    // stored as one entry — the documented undercount of self-scored
    // members.
    let mut store = MemStore::new();
    assert_eq!(record_log(&mut store, 1, BASE_MILLIS), 1);
    assert_eq!(record_log(&mut store, 1, BASE_MILLIS), 1);
}

#[test]
fn sliding_window_counts_without_prior_window() {
    // Four records inside one window with an empty previous window: the
    // fourth returns 4 plus a zero weighted contribution.
    let mut store = MemStore::new();
    assert_eq!(record_sliding(&mut store, 1, BASE_MILLIS + 100), 1);
    assert_eq!(record_sliding(&mut store, 1, BASE_MILLIS + 200), 2);
    assert_eq!(record_sliding(&mut store, 1, BASE_MILLIS + 300), 3);
    assert_eq!(record_sliding(&mut store, 1, BASE_MILLIS + 400), 4);
}

#[test]
fn sliding_window_weighs_previous_window() {
    // Four events in one window, then a record 200 ms into the next one:
    // 1 + round(4 * 0.8) = 4, and a fetch at the same instant agrees.
    let mut store = MemStore::new();
    for i in 1..=4u64 {
        assert_eq!(record_sliding(&mut store, 1, BASE_MILLIS + 100 * i), i);
    }
    assert_eq!(record_sliding(&mut store, 1, BASE_MILLIS + 1200), 4);
    assert_eq!(fetch_sliding(&mut store, 1, BASE_MILLIS + 1200), 4);
    // Later in the window the previous window weighs less.
    assert_eq!(fetch_sliding(&mut store, 1, BASE_MILLIS + 1750), 2);
}

#[test]
fn sliding_window_fetch_on_empty_store() {
    let mut store = MemStore::new();
    assert_eq!(fetch_sliding(&mut store, 1, BASE_MILLIS + 500), 0);
}

#[test]
fn algorithms_use_separate_keys() {
    // A sliding log and a fixed window for the same pair never share a
    // key: the log key has no epoch segment.
    let mut store = MemStore::new();
    assert_eq!(record_fixed(&mut store, 1, BASE_SECS), 1);
    assert_eq!(record_log(&mut store, 1, BASE_MILLIS), 1);
    assert_eq!(record_fixed(&mut store, 1, BASE_SECS), 2);
    assert_eq!(fetch_log(&mut store), 1);
}
