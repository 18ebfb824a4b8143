//! Fixed window limiter: one counter per clock-aligned window.
//!
//! `record` atomically increments the current window's counter and
//! refreshes its time-to-live; `fetch` reads it without mutation. The count
//! resets when the epoch turns, because the new window's key differs from
//! the old one — the intentional boundary behaviour of the algorithm.

use vstd::prelude::*;

use crate::keys::{
    build_window_key, check_ident, key_prefix, lemma_window_key_epoch_injective, valid_ident,
    window_key,
};
use crate::store::{
    apply_cmd, counted_outcome, counter_at, plan_view, replies_view, run_batch, CmdModel,
    PlanStep, PlannedCommand, ReplyModel, StoreCommand, StoreModel, StoreReply,
};
use crate::window::{current_epoch, epoch_of, lemma_epoch_in_window};
use crate::RateError;

verus! {

/// The key of the window-bound counter that a call at `now_secs` touches.
pub open spec fn fixed_window_key(
    resource: Seq<char>,
    subject: Seq<char>,
    size_secs: u64,
    now_secs: u64,
) -> Seq<char>
    recommends
        size_secs > 0,
{
    window_key(key_prefix(), resource, subject, epoch_of(now_secs as int, size_secs as int) as nat)
}

/// The batch a `record` call submits: increment the current window's
/// counter (the one kept reply) and refresh the key's time-to-live to the
/// window size, so a counter outlives its own window by nothing.
pub open spec fn record_plan(
    resource: Seq<char>,
    subject: Seq<char>,
    size_secs: u64,
    now_secs: u64,
) -> Seq<PlanStep>
    recommends
        size_secs > 0,
{
    let key = fixed_window_key(resource, subject, size_secs, now_secs);
    seq![
        PlanStep { cmd: CmdModel::IncrBy { key, amount: 1 }, keep: true },
        PlanStep { cmd: CmdModel::Expire { key, seconds: size_secs as nat }, keep: false },
    ]
}

/// The batch a `fetch` call submits: one non-mutating read.
pub open spec fn fetch_plan(
    resource: Seq<char>,
    subject: Seq<char>,
    size_secs: u64,
    now_secs: u64,
) -> Seq<PlanStep>
    recommends
        size_secs > 0,
{
    seq![
        PlanStep {
            cmd: CmdModel::Get { key: fixed_window_key(resource, subject, size_secs, now_secs) },
            keep: true,
        },
    ]
}

/// Build the `record` batch for an access to `resource` by `subject` at
/// `now_secs`, with a window of `size_secs` seconds. Rejects a zero window
/// and identifiers containing the key delimiter before anything reaches
/// the store. The caller executes the batch atomically and hands the
/// replies to [`crate::store::single_count_reply`]; the count returned is
/// the post-increment value.
pub fn record_fixed_window(
    resource: &str,
    subject: &str,
    size_secs: u64,
    now_secs: u64,
) -> (r: Result<Vec<PlannedCommand>, RateError>)
    ensures
        r is Ok <==> size_secs > 0 && valid_ident(resource@) && valid_ident(subject@),
        r matches Ok(v) ==> plan_view(v@) == record_plan(resource@, subject@, size_secs, now_secs),
        r is Err ==> r == Err::<Vec<PlannedCommand>, RateError>(RateError::InvalidArgument),
{
    if size_secs == 0 || !check_ident(resource) || !check_ident(subject) {
        return Err(RateError::InvalidArgument);
    }
    let epoch = current_epoch(now_secs, size_secs);
    let key = build_window_key("rate-limit", resource, subject, epoch);
    let expire_key = key.clone();
    let mut v: Vec<PlannedCommand> = Vec::new();
    v.push(PlannedCommand { cmd: StoreCommand::IncrBy { key, amount: 1 }, keep: true });
    v.push(
        PlannedCommand {
            cmd: StoreCommand::Expire { key: expire_key, seconds: size_secs },
            keep: false,
        },
    );
    proof {
        assert(plan_view(v@) =~= record_plan(resource@, subject@, size_secs, now_secs));
    }
    Ok(v)
}

/// Build the `fetch` batch: read the current window's counter without
/// mutation. The caller executes it and hands the replies to
/// [`fetch_fixed_window_count`]; an absent counter reads as zero.
pub fn fetch_fixed_window(
    resource: &str,
    subject: &str,
    size_secs: u64,
    now_secs: u64,
) -> (r: Result<Vec<PlannedCommand>, RateError>)
    ensures
        r is Ok <==> size_secs > 0 && valid_ident(resource@) && valid_ident(subject@),
        r matches Ok(v) ==> plan_view(v@) == fetch_plan(resource@, subject@, size_secs, now_secs),
        r is Err ==> r == Err::<Vec<PlannedCommand>, RateError>(RateError::InvalidArgument),
{
    if size_secs == 0 || !check_ident(resource) || !check_ident(subject) {
        return Err(RateError::InvalidArgument);
    }
    let epoch = current_epoch(now_secs, size_secs);
    let key = build_window_key("rate-limit", resource, subject, epoch);
    let mut v: Vec<PlannedCommand> = Vec::new();
    v.push(PlannedCommand { cmd: StoreCommand::Get { key }, keep: true });
    proof {
        assert(plan_view(v@) =~= fetch_plan(resource@, subject@, size_secs, now_secs));
    }
    Ok(v)
}

/// How a `fetch` reply vector is read: the counter's value, zero when the
/// key was absent (no event recorded yet this window).
pub open spec fn fetched_outcome(rs: Seq<ReplyModel>) -> Result<nat, RateError> {
    if rs.len() == 1 && rs[0] is OptUint {
        Ok(
            match rs[0]->OptUint_0 {
                Some(n) => n,
                None => 0,
            },
        )
    } else {
        Err(RateError::UnexpectedReply)
    }
}

/// Interpret the replies of a `fetch` batch.
pub fn fetch_fixed_window_count(replies: &Vec<StoreReply>) -> (r: Result<u64, RateError>)
    ensures
        crate::store::outcome_matches(r, fetched_outcome(replies_view(replies@))),
{
    if replies.len() == 1 {
        match &replies[0] {
            StoreReply::OptUint(o) => Ok(
                match o {
                    Some(n) => *n,
                    None => 0,
                },
            ),
            _ => Err(RateError::UnexpectedReply),
        }
    } else {
        Err(RateError::UnexpectedReply)
    }
}

/// A `fetch` call returns the current window's counter as it stands —
/// zero when the key is absent — and changes nothing in the store.
pub proof fn lemma_fetch_fixed_window(
    s: StoreModel,
    resource: Seq<char>,
    subject: Seq<char>,
    size_secs: u64,
    now_secs: u64,
)
    requires
        size_secs > 0,
    ensures
        fetched_outcome(run_batch(s, fetch_plan(resource, subject, size_secs, now_secs)).1)
            == Ok::<nat, RateError>(
            counter_at(s, fixed_window_key(resource, subject, size_secs, now_secs)),
        ),
        run_batch(s, fetch_plan(resource, subject, size_secs, now_secs)).0 == s,
{
    let plan = fetch_plan(resource, subject, size_secs, now_secs);
    let key = fixed_window_key(resource, subject, size_secs, now_secs);
    assert(plan.drop_first() =~= Seq::<PlanStep>::empty());
    assert(run_batch(s, plan.drop_first()).1 =~= Seq::<ReplyModel>::empty());
    assert(run_batch(s, plan).1 =~= seq![apply_cmd(s, plan[0].cmd).1]);
}

/// The count a `record` call comes back with, against a given store state.
pub open spec fn record_result(
    s: StoreModel,
    resource: Seq<char>,
    subject: Seq<char>,
    size_secs: u64,
    now_secs: u64,
) -> Result<nat, RateError> {
    counted_outcome(run_batch(s, record_plan(resource, subject, size_secs, now_secs)).1)
}

/// The store state a `record` call leaves behind.
pub open spec fn record_post(
    s: StoreModel,
    resource: Seq<char>,
    subject: Seq<char>,
    size_secs: u64,
    now_secs: u64,
) -> StoreModel {
    run_batch(s, record_plan(resource, subject, size_secs, now_secs)).0
}

/// One `record` call returns the post-increment value of exactly its own
/// window's counter, increments nothing else, and touches no log.
pub proof fn lemma_record_fixed_window_step(
    s: StoreModel,
    resource: Seq<char>,
    subject: Seq<char>,
    size_secs: u64,
    now_secs: u64,
)
    requires
        size_secs > 0,
    ensures
        ({
            let key = fixed_window_key(resource, subject, size_secs, now_secs);
            &&& record_result(s, resource, subject, size_secs, now_secs) == Ok::<
                nat,
                RateError,
            >(counter_at(s, key) + 1)
            &&& record_post(s, resource, subject, size_secs, now_secs).counters
                == s.counters.insert(key, counter_at(s, key) + 1)
            &&& record_post(s, resource, subject, size_secs, now_secs).logs == s.logs
        }),
{
    let plan = record_plan(resource, subject, size_secs, now_secs);
    let key = fixed_window_key(resource, subject, size_secs, now_secs);
    let n = counter_at(s, key) + 1;
    let s1 = StoreModel { counters: s.counters.insert(key, n), ..s };
    assert(apply_cmd(s, plan[0].cmd) == (s1, ReplyModel::Uint(n)));
    let tail = plan.drop_first();
    assert(tail =~= seq![plan[1]]);
    assert(apply_cmd(s1, tail[0].cmd) == (s1, ReplyModel::Ack));
    assert(tail.drop_first() =~= Seq::<PlanStep>::empty());
    assert(run_batch(s1, tail.drop_first()) == (s1, Seq::<ReplyModel>::empty()));
    assert(run_batch(s1, tail).0 == s1);
    assert(run_batch(s1, tail).1 =~= Seq::<ReplyModel>::empty());
    assert(run_batch(s, plan).0 == s1);
    assert(run_batch(s, plan).1 =~= seq![ReplyModel::Uint(n)]);
}

/// The store state after a whole run of `record` calls, one per entry of
/// `nows`, oldest first.
pub open spec fn record_seq_post(
    s: StoreModel,
    resource: Seq<char>,
    subject: Seq<char>,
    size_secs: u64,
    nows: Seq<u64>,
) -> StoreModel
    decreases nows.len(),
{
    if nows.len() == 0 {
        s
    } else {
        record_post(
            record_seq_post(s, resource, subject, size_secs, nows.drop_last()),
            resource,
            subject,
            size_secs,
            nows.last(),
        )
    }
}

proof fn lemma_fixed_counter_after(
    s: StoreModel,
    resource: Seq<char>,
    subject: Seq<char>,
    size_secs: u64,
    nows: Seq<u64>,
    k: int,
)
    requires
        size_secs > 0,
        nows.len() > 0,
        0 <= k <= nows.len(),
        forall|i: int|
            0 <= i < nows.len() ==> epoch_of((#[trigger] nows[i]) as int, size_secs as int) == epoch_of(
                nows[0] as int,
                size_secs as int,
            ),
        !s.counters.dom().contains(fixed_window_key(resource, subject, size_secs, nows[0])),
    ensures
        counter_at(
            record_seq_post(s, resource, subject, size_secs, nows.take(k)),
            fixed_window_key(resource, subject, size_secs, nows[0]),
        ) == k,
    decreases k,
{
    let key0 = fixed_window_key(resource, subject, size_secs, nows[0]);
    if k == 0 {
        assert(nows.take(0) =~= Seq::<u64>::empty());
    } else {
        lemma_fixed_counter_after(s, resource, subject, size_secs, nows, k - 1);
        let pre = record_seq_post(s, resource, subject, size_secs, nows.take(k - 1));
        assert(nows.take(k).drop_last() =~= nows.take(k - 1));
        assert(nows.take(k).last() == nows[k - 1]);
        assert(fixed_window_key(resource, subject, size_secs, nows[k - 1]) == key0);
        lemma_record_fixed_window_step(pre, resource, subject, size_secs, nows[k - 1]);
    }
}

/// Within one window, `record` calls count in order: the `k`-th call of a
/// run that began with no counter returns `k + 1`, so a run of `n` calls
/// returns `1, 2, …, n`.
pub proof fn lemma_fixed_window_counts_in_order(
    s: StoreModel,
    resource: Seq<char>,
    subject: Seq<char>,
    size_secs: u64,
    nows: Seq<u64>,
    k: int,
)
    requires
        size_secs > 0,
        0 <= k < nows.len(),
        forall|i: int|
            0 <= i < nows.len() ==> epoch_of((#[trigger] nows[i]) as int, size_secs as int) == epoch_of(
                nows[0] as int,
                size_secs as int,
            ),
        !s.counters.dom().contains(fixed_window_key(resource, subject, size_secs, nows[0])),
    ensures
        record_result(
            record_seq_post(s, resource, subject, size_secs, nows.take(k)),
            resource,
            subject,
            size_secs,
            nows[k],
        ) == Ok::<nat, RateError>((k + 1) as nat),
{
    let key0 = fixed_window_key(resource, subject, size_secs, nows[0]);
    lemma_fixed_counter_after(s, resource, subject, size_secs, nows, k);
    let pre = record_seq_post(s, resource, subject, size_secs, nows.take(k));
    assert(fixed_window_key(resource, subject, size_secs, nows[k]) == key0);
    lemma_record_fixed_window_step(pre, resource, subject, size_secs, nows[k]);
}

proof fn lemma_fixed_key_absent_preserved(
    s: StoreModel,
    resource: Seq<char>,
    subject: Seq<char>,
    size_secs: u64,
    nows: Seq<u64>,
    other: Seq<char>,
)
    requires
        size_secs > 0,
        !s.counters.dom().contains(other),
        forall|i: int|
            0 <= i < nows.len() ==> fixed_window_key(resource, subject, size_secs, #[trigger] nows[i])
                != other,
    ensures
        !record_seq_post(s, resource, subject, size_secs, nows).counters.dom().contains(other),
    decreases nows.len(),
{
    if nows.len() > 0 {
        lemma_fixed_key_absent_preserved(s, resource, subject, size_secs, nows.drop_last(), other);
        let pre = record_seq_post(s, resource, subject, size_secs, nows.drop_last());
        lemma_record_fixed_window_step(pre, resource, subject, size_secs, nows.last());
    }
}

/// Once time has passed the window boundary, the next `record` call
/// returns 1: the new window's key differs from every key the old window's
/// calls wrote, so its counter starts fresh.
pub proof fn lemma_fixed_window_resets_after_boundary(
    s: StoreModel,
    resource: Seq<char>,
    subject: Seq<char>,
    size_secs: u64,
    nows: Seq<u64>,
    now2: u64,
)
    requires
        size_secs > 0,
        forall|i: int|
            0 <= i < nows.len() ==> epoch_of((#[trigger] nows[i]) as int, size_secs as int) != epoch_of(
                now2 as int,
                size_secs as int,
            ),
        !s.counters.dom().contains(fixed_window_key(resource, subject, size_secs, now2)),
    ensures
        record_result(
            record_seq_post(s, resource, subject, size_secs, nows),
            resource,
            subject,
            size_secs,
            now2,
        ) == Ok::<nat, RateError>(1),
{
    let key2 = fixed_window_key(resource, subject, size_secs, now2);
    assert forall|i: int| 0 <= i < nows.len() implies fixed_window_key(
        resource,
        subject,
        size_secs,
        nows[i],
    ) != key2 by {
        lemma_epoch_in_window(nows[i] as int, size_secs as int);
        lemma_epoch_in_window(now2 as int, size_secs as int);
        if fixed_window_key(resource, subject, size_secs, nows[i]) == key2 {
            lemma_window_key_epoch_injective(
                key_prefix(),
                resource,
                subject,
                epoch_of(nows[i] as int, size_secs as int) as nat,
                epoch_of(now2 as int, size_secs as int) as nat,
            );
        }
    }
    lemma_fixed_key_absent_preserved(s, resource, subject, size_secs, nows, key2);
    let pre = record_seq_post(s, resource, subject, size_secs, nows);
    lemma_record_fixed_window_step(pre, resource, subject, size_secs, now2);
}

} // verus!
