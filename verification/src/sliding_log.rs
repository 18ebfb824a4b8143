//! Sliding log limiter: every event's millisecond timestamp is kept in an
//! ordered set, each entry ranked by its own value.
//!
//! `record` atomically trims entries strictly older than the trailing
//! boundary `now − size` (one at exactly the boundary is still counted),
//! inserts the current timestamp, counts what remains and refreshes the
//! key's time-to-live. `fetch` only counts; staleness is
//! enforced at `record` time alone, so a `fetch` with no interleaving
//! `record` can overcount a strict trailing window — a documented
//! limitation, as is the collapse of two events that share a millisecond
//! into one self-ranked entry.

use vstd::prelude::*;

use crate::keys::{build_log_key, check_ident, key_prefix, log_key, valid_ident};
use crate::store::{
    apply_cmd, counted_outcome, lemma_run_batch_wf, log_at, plan_view, run_batch, store_wf,
    CmdModel, PlanStep, PlannedCommand, ReplyModel, StoreCommand, StoreModel,
};
use crate::RateError;

verus! {

/// An entry survives the trim of a `record` call at `now_millis` when it
/// still lies inside the trailing window of `size_secs` seconds: only
/// entries strictly older than `now_millis - size` are removed, so one at
/// exactly the boundary is kept.
pub open spec fn in_window(m: nat, now_millis: u64, size_secs: u64) -> bool {
    m + 1000 * (size_secs as nat) >= now_millis as nat
}

/// The log entries of `key` that survive the trim of a call at
/// `now_millis`.
pub open spec fn survivors(
    s: StoreModel,
    key: Seq<char>,
    now_millis: u64,
    size_secs: u64,
) -> Set<nat> {
    log_at(s, key).filter(|m: nat| in_window(m, now_millis, size_secs))
}

/// The batch a `record` call submits: trim entries strictly below the
/// trailing boundary (omitted entirely when the window reaches back to or
/// past time zero, where nothing can be stale), insert the current
/// timestamp as its own rank, count the remainder — the one kept reply —
/// and refresh the key's time-to-live.
pub open spec fn record_plan(
    resource: Seq<char>,
    subject: Seq<char>,
    size_secs: u64,
    now_millis: u64,
) -> Seq<PlanStep>
    recommends
        size_secs > 0,
{
    let key = log_key(key_prefix(), resource, subject);
    let size_millis = 1000 * (size_secs as int);
    let trim: Seq<PlanStep> = if now_millis as int > size_millis {
        seq![
            PlanStep {
                cmd: CmdModel::ZRemUpTo {
                    key,
                    max_score: (now_millis as int - size_millis - 1) as nat,
                },
                keep: false,
            },
        ]
    } else {
        Seq::empty()
    };
    trim + seq![
        PlanStep { cmd: CmdModel::ZAdd { key, member: now_millis as nat }, keep: false },
        PlanStep { cmd: CmdModel::ZCard { key }, keep: true },
        PlanStep { cmd: CmdModel::Expire { key, seconds: size_secs as nat }, keep: false },
    ]
}

/// The batch a `fetch` call submits: one cardinality read, no trim and no
/// insert.
pub open spec fn fetch_plan(resource: Seq<char>, subject: Seq<char>) -> Seq<PlanStep> {
    seq![PlanStep { cmd: CmdModel::ZCard { key: log_key(key_prefix(), resource, subject) }, keep: true }]
}

/// Build the `record` batch for an access to `resource` by `subject` at
/// `now_millis`, with a trailing window of `size_secs` seconds. The window
/// must be positive, its width in milliseconds must fit the machine word,
/// and the identifiers must be free of the key delimiter. The caller
/// executes the batch atomically and hands the replies to
/// [`crate::store::single_count_reply`]; the count returned includes the
/// event just recorded.
pub fn record_sliding_log(
    resource: &str,
    subject: &str,
    size_secs: u64,
    now_millis: u64,
) -> (r: Result<Vec<PlannedCommand>, RateError>)
    ensures
        r is Ok <==> size_secs > 0 && 1000 * (size_secs as int) <= u64::MAX && valid_ident(
            resource@,
        ) && valid_ident(subject@),
        r matches Ok(v) ==> plan_view(v@) == record_plan(
            resource@,
            subject@,
            size_secs,
            now_millis,
        ),
        r is Err ==> r == Err::<Vec<PlannedCommand>, RateError>(RateError::InvalidArgument),
{
    if size_secs == 0 || size_secs > u64::MAX / 1000 || !check_ident(resource) || !check_ident(
        subject,
    ) {
        return Err(RateError::InvalidArgument);
    }
    let key = build_log_key("rate-limit", resource, subject);
    let size_millis: u64 = 1000 * size_secs;
    let mut v: Vec<PlannedCommand> = Vec::new();
    if now_millis > size_millis {
        let trim_key = key.clone();
        v.push(
            PlannedCommand {
                cmd: StoreCommand::ZRemUpTo {
                    key: trim_key,
                    max_score: now_millis - size_millis - 1,
                },
                keep: false,
            },
        );
    }
    let add_key = key.clone();
    let card_key = key.clone();
    v.push(
        PlannedCommand { cmd: StoreCommand::ZAdd { key: add_key, member: now_millis }, keep: false },
    );
    v.push(PlannedCommand { cmd: StoreCommand::ZCard { key: card_key }, keep: true });
    v.push(PlannedCommand { cmd: StoreCommand::Expire { key, seconds: size_secs }, keep: false });
    proof {
        assert(plan_view(v@) =~= record_plan(resource@, subject@, size_secs, now_millis));
    }
    Ok(v)
}

/// Build the `fetch` batch: the log's current cardinality, read without
/// trimming or inserting. The caller hands the replies to
/// [`crate::store::single_count_reply`].
pub fn fetch_sliding_log(resource: &str, subject: &str) -> (r: Result<
    Vec<PlannedCommand>,
    RateError,
>)
    ensures
        r is Ok <==> valid_ident(resource@) && valid_ident(subject@),
        r matches Ok(v) ==> plan_view(v@) == fetch_plan(resource@, subject@),
        r is Err ==> r == Err::<Vec<PlannedCommand>, RateError>(RateError::InvalidArgument),
{
    if !check_ident(resource) || !check_ident(subject) {
        return Err(RateError::InvalidArgument);
    }
    let key = build_log_key("rate-limit", resource, subject);
    let mut v: Vec<PlannedCommand> = Vec::new();
    v.push(PlannedCommand { cmd: StoreCommand::ZCard { key }, keep: true });
    proof {
        assert(plan_view(v@) =~= fetch_plan(resource@, subject@));
    }
    Ok(v)
}

/// The count a `record` call comes back with, against a given store state.
pub open spec fn record_result(
    s: StoreModel,
    resource: Seq<char>,
    subject: Seq<char>,
    size_secs: u64,
    now_millis: u64,
) -> Result<nat, RateError> {
    counted_outcome(run_batch(s, record_plan(resource, subject, size_secs, now_millis)).1)
}

/// The store state a `record` call leaves behind.
pub open spec fn record_post(
    s: StoreModel,
    resource: Seq<char>,
    subject: Seq<char>,
    size_secs: u64,
    now_millis: u64,
) -> StoreModel {
    run_batch(s, record_plan(resource, subject, size_secs, now_millis)).0
}

/// The count a `fetch` call comes back with.
pub open spec fn fetch_result(
    s: StoreModel,
    resource: Seq<char>,
    subject: Seq<char>,
) -> Result<nat, RateError> {
    counted_outcome(run_batch(s, fetch_plan(resource, subject)).1)
}

/// A `fetch` call returns the log's cardinality exactly as it stands and
/// changes nothing in the store: stale entries linger until the next
/// `record` trims them.
pub proof fn lemma_fetch_sliding_log(s: StoreModel, resource: Seq<char>, subject: Seq<char>)
    requires
        store_wf(s),
    ensures
        fetch_result(s, resource, subject) == Ok::<nat, RateError>(
            log_at(s, log_key(key_prefix(), resource, subject)).len(),
        ),
        run_batch(s, fetch_plan(resource, subject)).0 == s,
{
    let plan = fetch_plan(resource, subject);
    assert(plan.drop_first() =~= Seq::<PlanStep>::empty());
    assert(run_batch(s, plan.drop_first()).1 =~= Seq::<ReplyModel>::empty());
    assert(run_batch(s, plan).1 =~= seq![apply_cmd(s, plan[0].cmd).1]);
}

/// One `record` call keeps exactly the entries still inside the trailing
/// window, adds its own timestamp, and returns the size of the result:
/// events older than the window are trimmed and never counted again.
pub proof fn lemma_record_sliding_log_step(
    s: StoreModel,
    resource: Seq<char>,
    subject: Seq<char>,
    size_secs: u64,
    now_millis: u64,
)
    requires
        store_wf(s),
        size_secs > 0,
    ensures
        ({
            let key = log_key(key_prefix(), resource, subject);
            let after = survivors(s, key, now_millis, size_secs).insert(now_millis as nat);
            &&& record_result(s, resource, subject, size_secs, now_millis) == Ok::<
                nat,
                RateError,
            >(after.len())
            &&& record_post(s, resource, subject, size_secs, now_millis).logs == s.logs.insert(
                key,
                after,
            )
            &&& record_post(s, resource, subject, size_secs, now_millis).counters == s.counters
            &&& after.finite()
            &&& after.len() >= 1
        }),
{
    let key = log_key(key_prefix(), resource, subject);
    let plan = record_plan(resource, subject, size_secs, now_millis);
    let size_millis = 1000 * (size_secs as int);
    let kept = survivors(s, key, now_millis, size_secs);
    let after = kept.insert(now_millis as nat);
    if log_at(s, key).finite() {
        log_at(s, key).lemma_len_filter(|m: nat| in_window(m, now_millis, size_secs));
    }
    let s_trim = if now_millis as int > size_millis {
        let max_score = (now_millis as int - size_millis - 1) as nat;
        let st = apply_cmd(s, plan[0].cmd).0;
        assert(st.logs == s.logs.insert(key, log_at(s, key).filter(|m: nat| m > max_score)));
        assert(log_at(st, key) =~= kept) by {
            assert forall|m: nat| true implies (log_at(s, key).contains(m) && m > max_score)
                == (log_at(s, key).contains(m) && in_window(m, now_millis, size_secs)) by {}
        }
        st
    } else {
        assert(log_at(s, key) =~= kept) by {
            assert forall|m: nat| log_at(s, key).contains(m) implies in_window(
                m,
                now_millis,
                size_secs,
            ) by {}
        }
        s
    };
    let rest = if now_millis as int > size_millis {
        plan.drop_first()
    } else {
        plan
    };
    assert(rest =~= seq![plan[plan.len() - 3], plan[plan.len() - 2], plan[plan.len() - 1]]);
    assert(rest[0].cmd == CmdModel::ZAdd { key, member: now_millis as nat });
    let s_add = apply_cmd(s_trim, rest[0].cmd).0;
    assert(log_at(s_trim, key) == if s_trim.logs.dom().contains(key) {
        s_trim.logs[key]
    } else {
        Set::<nat>::empty()
    });
    assert(s_add.logs == s_trim.logs.insert(key, log_at(s_trim, key).insert(now_millis as nat)));
    assert(log_at(s_add, key) =~= after);
    let tail1 = rest.drop_first();
    assert(tail1 =~= seq![rest[1], rest[2]]);
    let (s_card, r_card) = apply_cmd(s_add, tail1[0].cmd);
    assert(s_card == s_add);
    assert(r_card == ReplyModel::Uint(after.len()));
    let tail2 = tail1.drop_first();
    assert(tail2 =~= seq![rest[2]]);
    assert(apply_cmd(s_card, tail2[0].cmd).0 == s_card);
    assert(tail2.drop_first() =~= Seq::<PlanStep>::empty());
    assert(run_batch(s_card, tail2.drop_first()).1 =~= Seq::<ReplyModel>::empty());
    assert(run_batch(s_card, tail2).0 == s_card);
    assert(run_batch(s_card, tail2).1 =~= Seq::<ReplyModel>::empty());
    assert(run_batch(s_add, tail1).1 =~= seq![ReplyModel::Uint(after.len())]);
    assert(run_batch(s_add, tail1).0 == s_card);
    assert(run_batch(s_trim, rest).1 =~= seq![ReplyModel::Uint(after.len())]);
    assert(run_batch(s, plan).1 =~= seq![ReplyModel::Uint(after.len())]);
    assert(run_batch(s, plan).0 == s_card);
    assert(s_card.logs =~= s.logs.insert(key, after));
    assert(kept.finite() && after.finite());
    assert(after.len() == kept.len() + (if kept.contains(now_millis as nat) {
        0int
    } else {
        1
    }));
}

/// The store state after a whole run of `record` calls, one per entry of
/// `ts`, oldest first.
pub open spec fn record_seq_post(
    s: StoreModel,
    resource: Seq<char>,
    subject: Seq<char>,
    size_secs: u64,
    ts: Seq<u64>,
) -> StoreModel
    decreases ts.len(),
{
    if ts.len() == 0 {
        s
    } else {
        record_post(
            record_seq_post(s, resource, subject, size_secs, ts.drop_last()),
            resource,
            subject,
            size_secs,
            ts.last(),
        )
    }
}

/// The timestamps of a run, as the member set they leave in the log.
pub open spec fn members_of(ts: Seq<u64>) -> Set<nat>
    decreases ts.len(),
{
    if ts.len() == 0 {
        Set::empty()
    } else {
        members_of(ts.drop_last()).insert(ts.last() as nat)
    }
}

proof fn lemma_members_of_charact(ts: Seq<u64>)
    ensures
        members_of(ts).finite(),
        forall|m: nat|
            members_of(ts).contains(m) ==> exists|i: int|
                0 <= i < ts.len() && (#[trigger] ts[i]) as nat == m,
        forall|i: int| 0 <= i < ts.len() ==> members_of(ts).contains((#[trigger] ts[i]) as nat),
    decreases ts.len(),
{
    if ts.len() > 0 {
        lemma_members_of_charact(ts.drop_last());
        assert forall|i: int| 0 <= i < ts.len() implies members_of(ts).contains(
            (#[trigger] ts[i]) as nat,
        ) by {
            if i < ts.len() - 1 {
                assert(ts.drop_last()[i] == ts[i]);
            }
        }
    }
}

proof fn lemma_log_state_after(
    s: StoreModel,
    resource: Seq<char>,
    subject: Seq<char>,
    size_secs: u64,
    ts: Seq<u64>,
    k: int,
)
    requires
        store_wf(s),
        size_secs > 0,
        ts.len() > 0,
        forall|i: int, j: int| 0 <= i < j < ts.len() ==> ts[i] < ts[j],
        forall|i: int|
            0 <= i < ts.len() ==> in_window((#[trigger] ts[i]) as nat, ts[ts.len() - 1], size_secs),
        !s.logs.dom().contains(log_key(key_prefix(), resource, subject)),
        0 <= k <= ts.len(),
    ensures
        ({
            let post = record_seq_post(s, resource, subject, size_secs, ts.take(k));
            let key = log_key(key_prefix(), resource, subject);
            &&& store_wf(post)
            &&& log_at(post, key) == members_of(ts.take(k))
            &&& log_at(post, key).finite()
            &&& log_at(post, key).len() == k
            &&& post.counters == s.counters
        }),
    decreases k,
{
    let key = log_key(key_prefix(), resource, subject);
    if k == 0 {
        assert(ts.take(0) =~= Seq::<u64>::empty());
        assert(log_at(s, key) =~= members_of(ts.take(0)));
    } else {
        lemma_log_state_after(s, resource, subject, size_secs, ts, k - 1);
        let pre = record_seq_post(s, resource, subject, size_secs, ts.take(k - 1));
        assert(ts.take(k).drop_last() =~= ts.take(k - 1));
        assert(ts.take(k).last() == ts[k - 1]);
        lemma_record_sliding_log_step(pre, resource, subject, size_secs, ts[k - 1]);
        lemma_run_batch_wf(pre, record_plan(resource, subject, size_secs, ts[k - 1]));
        lemma_members_of_charact(ts.take(k - 1));
        lemma_members_of_charact(ts.take(k));
        assert(survivors(pre, key, ts[k - 1], size_secs) =~= members_of(ts.take(k - 1))) by {
            assert forall|m: nat| #[trigger] members_of(ts.take(k - 1)).contains(m) implies in_window(
                m,
                ts[k - 1],
                size_secs,
            ) by {
                let i = choose|i: int|
                    0 <= i < ts.take(k - 1).len() && (#[trigger] ts.take(k - 1)[i]) as nat == m;
                assert(ts[i] == ts.take(k - 1)[i]);
                assert(in_window(ts[i] as nat, ts[ts.len() - 1], size_secs));
                assert(k - 1 == ts.len() - 1 || ts[k - 1] < ts[ts.len() - 1]);
            }
        }
        assert(!members_of(ts.take(k - 1)).contains(ts[k - 1] as nat)) by {
            if members_of(ts.take(k - 1)).contains(ts[k - 1] as nat) {
                let i = choose|i: int|
                    0 <= i < ts.take(k - 1).len() && (#[trigger] ts.take(k - 1)[i]) as nat == ts[k
                        - 1] as nat;
                assert(ts[i] < ts[k - 1]);
            }
        }
        assert(log_at(record_seq_post(s, resource, subject, size_secs, ts.take(k)), key)
            =~= members_of(ts.take(k)));
    }
}

/// A `fetch` right after a run of `record` calls that all lie inside the
/// trailing window of the last one counts every one of them: nothing was
/// trimmed, and distinct timestamps never collapse.
pub proof fn lemma_sliding_log_fetch_counts_all(
    s: StoreModel,
    resource: Seq<char>,
    subject: Seq<char>,
    size_secs: u64,
    ts: Seq<u64>,
)
    requires
        store_wf(s),
        size_secs > 0,
        ts.len() > 0,
        forall|i: int, j: int| 0 <= i < j < ts.len() ==> ts[i] < ts[j],
        forall|i: int|
            0 <= i < ts.len() ==> in_window((#[trigger] ts[i]) as nat, ts[ts.len() - 1], size_secs),
        !s.logs.dom().contains(log_key(key_prefix(), resource, subject)),
    ensures
        fetch_result(
            record_seq_post(s, resource, subject, size_secs, ts),
            resource,
            subject,
        ) == Ok::<nat, RateError>(ts.len()),
{
    lemma_log_state_after(s, resource, subject, size_secs, ts, ts.len() as int);
    assert(ts.take(ts.len() as int) =~= ts);
    lemma_fetch_sliding_log(record_seq_post(s, resource, subject, size_secs, ts), resource, subject);
}

/// A `record` call after an idle spell longer than the window counts only
/// itself: every prior entry has aged out and is trimmed.
pub proof fn lemma_record_sliding_log_after_idle(
    s: StoreModel,
    resource: Seq<char>,
    subject: Seq<char>,
    size_secs: u64,
    now_millis: u64,
)
    requires
        store_wf(s),
        size_secs > 0,
        forall|m: nat| log_at(s, log_key(key_prefix(), resource, subject)).contains(m) ==> !in_window(
            m,
            now_millis,
            size_secs,
        ),
    ensures
        record_result(s, resource, subject, size_secs, now_millis) == Ok::<nat, RateError>(1),
{
    let key = log_key(key_prefix(), resource, subject);
    lemma_record_sliding_log_step(s, resource, subject, size_secs, now_millis);
    assert(survivors(s, key, now_millis, size_secs) =~= Set::<nat>::empty());
    assert(survivors(s, key, now_millis, size_secs).insert(now_millis as nat) =~= Set::<
        nat,
    >::empty().insert(now_millis as nat));
    assert(Set::<nat>::empty().insert(now_millis as nat).len() == 1);
}

} // verus!
