//! Sliding window limiter: the two-bucket approximation of a trailing
//! window, from a previous-window counter, a current-window counter and a
//! linear time weight.
//!
//! `record` atomically reads the previous window's counter, increments the
//! current window's, and gives the current key a time-to-live of twice the
//! window, so it stays readable as "previous" after the epoch turns; the
//! transaction makes the read and the increment mutually consistent.
//! `fetch` reads both counters without mutation. Both derive their count
//! with [`crate::window::sliding_window_count`].

use vstd::prelude::*;

use crate::keys::{build_window_key, check_ident, key_prefix, valid_ident, window_key};
use crate::store::{
    apply_cmd, counter_at, outcome_matches, plan_view, replies_view, run_batch, CmdModel,
    PlanStep, PlannedCommand, ReplyModel, StoreCommand, StoreModel, StoreReply,
};
use crate::window::{
    cap_u64, current_epoch, epoch_of, sliding_window_count, weighted_estimate,
};
use crate::RateError;

verus! {

/// Whether a previous window exists at all: only when the current epoch
/// does not reach back past time zero. Without one, the previous count is
/// zero and no read is batched for it.
pub open spec fn has_previous(size_secs: u64, now_millis: u64) -> bool {
    epoch_of((now_millis / 1000) as int, size_secs as int) >= size_secs as int
}

/// The key of the current window's counter.
pub open spec fn current_key(
    resource: Seq<char>,
    subject: Seq<char>,
    size_secs: u64,
    now_millis: u64,
) -> Seq<char>
    recommends
        size_secs > 0,
{
    window_key(
        key_prefix(),
        resource,
        subject,
        epoch_of((now_millis / 1000) as int, size_secs as int) as nat,
    )
}

/// The key of the previous window's counter.
pub open spec fn previous_key(
    resource: Seq<char>,
    subject: Seq<char>,
    size_secs: u64,
    now_millis: u64,
) -> Seq<char>
    recommends
        size_secs > 0,
        has_previous(size_secs, now_millis),
{
    window_key(
        key_prefix(),
        resource,
        subject,
        (epoch_of((now_millis / 1000) as int, size_secs as int) - size_secs as int) as nat,
    )
}

/// The batch a `record` call submits: read the previous window's counter,
/// increment the current window's — the two kept replies, consistent
/// because the batch is one transaction — and give the current key a
/// time-to-live of twice the window. When no previous window exists the
/// read is omitted.
pub open spec fn record_plan(
    resource: Seq<char>,
    subject: Seq<char>,
    size_secs: u64,
    now_millis: u64,
) -> Seq<PlanStep>
    recommends
        size_secs > 0,
{
    let ckey = current_key(resource, subject, size_secs, now_millis);
    let read: Seq<PlanStep> = if has_previous(size_secs, now_millis) {
        seq![
            PlanStep {
                cmd: CmdModel::Get { key: previous_key(resource, subject, size_secs, now_millis) },
                keep: true,
            },
        ]
    } else {
        Seq::empty()
    };
    read + seq![
        PlanStep { cmd: CmdModel::IncrBy { key: ckey, amount: 1 }, keep: true },
        PlanStep {
            cmd: CmdModel::Expire { key: ckey, seconds: 2 * (size_secs as nat) },
            keep: false,
        },
    ]
}

/// The batch a `fetch` call submits: both counters in one non-mutating
/// multi-key read (only the current one when no previous window exists).
pub open spec fn fetch_plan(
    resource: Seq<char>,
    subject: Seq<char>,
    size_secs: u64,
    now_millis: u64,
) -> Seq<PlanStep>
    recommends
        size_secs > 0,
{
    let keys: Seq<Seq<char>> = if has_previous(size_secs, now_millis) {
        seq![
            previous_key(resource, subject, size_secs, now_millis),
            current_key(resource, subject, size_secs, now_millis),
        ]
    } else {
        seq![current_key(resource, subject, size_secs, now_millis)]
    };
    seq![PlanStep { cmd: CmdModel::MGet { keys }, keep: true }]
}

/// Build the `record` batch for an access to `resource` by `subject` at
/// `now_millis`, with a window of `size_secs` seconds. The window must be
/// positive, its width in milliseconds must fit the machine word, and the
/// identifiers must be free of the key delimiter. The caller executes the
/// batch atomically and hands the replies to
/// [`record_sliding_window_count`].
pub fn record_sliding_window(
    resource: &str,
    subject: &str,
    size_secs: u64,
    now_millis: u64,
) -> (r: Result<Vec<PlannedCommand>, RateError>)
    ensures
        r is Ok <==> size_secs > 0 && 1000 * (size_secs as int) <= u64::MAX && valid_ident(
            resource@,
        ) && valid_ident(subject@),
        r matches Ok(v) ==> plan_view(v@) == record_plan(
            resource@,
            subject@,
            size_secs,
            now_millis,
        ),
        r is Err ==> r == Err::<Vec<PlannedCommand>, RateError>(RateError::InvalidArgument),
{
    if size_secs == 0 || size_secs > u64::MAX / 1000 || !check_ident(resource) || !check_ident(
        subject,
    ) {
        return Err(RateError::InvalidArgument);
    }
    let now_secs = now_millis / 1000;
    let epoch = current_epoch(now_secs, size_secs);
    let ckey = build_window_key("rate-limit", resource, subject, epoch);
    let expire_key = ckey.clone();
    let mut v: Vec<PlannedCommand> = Vec::new();
    if epoch >= size_secs {
        let pkey = build_window_key("rate-limit", resource, subject, epoch - size_secs);
        v.push(PlannedCommand { cmd: StoreCommand::Get { key: pkey }, keep: true });
    }
    v.push(PlannedCommand { cmd: StoreCommand::IncrBy { key: ckey, amount: 1 }, keep: true });
    v.push(
        PlannedCommand {
            cmd: StoreCommand::Expire { key: expire_key, seconds: 2 * size_secs },
            keep: false,
        },
    );
    proof {
        assert(plan_view(v@) =~= record_plan(resource@, subject@, size_secs, now_millis));
    }
    Ok(v)
}

/// Build the `fetch` batch: both counters, read without incrementing
/// either. The caller hands the replies to [`fetch_sliding_window_count`].
pub fn fetch_sliding_window(
    resource: &str,
    subject: &str,
    size_secs: u64,
    now_millis: u64,
) -> (r: Result<Vec<PlannedCommand>, RateError>)
    ensures
        r is Ok <==> size_secs > 0 && 1000 * (size_secs as int) <= u64::MAX && valid_ident(
            resource@,
        ) && valid_ident(subject@),
        r matches Ok(v) ==> plan_view(v@) == fetch_plan(resource@, subject@, size_secs, now_millis),
        r is Err ==> r == Err::<Vec<PlannedCommand>, RateError>(RateError::InvalidArgument),
{
    if size_secs == 0 || size_secs > u64::MAX / 1000 || !check_ident(resource) || !check_ident(
        subject,
    ) {
        return Err(RateError::InvalidArgument);
    }
    let now_secs = now_millis / 1000;
    let epoch = current_epoch(now_secs, size_secs);
    let ckey = build_window_key("rate-limit", resource, subject, epoch);
    let mut keys: Vec<String> = Vec::new();
    if epoch >= size_secs {
        let pkey = build_window_key("rate-limit", resource, subject, epoch - size_secs);
        keys.push(pkey);
    }
    keys.push(ckey);
    let mut v: Vec<PlannedCommand> = Vec::new();
    v.push(PlannedCommand { cmd: StoreCommand::MGet { keys }, keep: true });
    proof {
        assert(v@.map_values(|p: PlannedCommand| p@)[0].cmd->MGet_keys =~= fetch_plan(
            resource@,
            subject@,
            size_secs,
            now_millis,
        )[0].cmd->MGet_keys);
        assert(plan_view(v@) =~= fetch_plan(resource@, subject@, size_secs, now_millis));
    }
    Ok(v)
}

/// How a `record` reply vector is read: the weighted estimate from the
/// previous count (zero when absent or when no previous window exists) and
/// the post-increment current count.
pub open spec fn record_outcome(
    rs: Seq<ReplyModel>,
    now_millis: u64,
    size_secs: u64,
) -> Result<nat, RateError>
    recommends
        size_secs > 0,
{
    if has_previous(size_secs, now_millis) {
        if rs.len() == 2 && rs[0] is OptUint && rs[1] is Uint {
            let p = match rs[0]->OptUint_0 {
                Some(n) => n,
                None => 0,
            };
            Ok(
                cap_u64(
                    weighted_estimate(
                        p as int,
                        rs[1]->Uint_0 as int,
                        now_millis as int,
                        size_secs as int,
                    ),
                ) as nat,
            )
        } else {
            Err(RateError::UnexpectedReply)
        }
    } else {
        if rs.len() == 1 && rs[0] is Uint {
            Ok(
                cap_u64(
                    weighted_estimate(0, rs[0]->Uint_0 as int, now_millis as int, size_secs as int),
                ) as nat,
            )
        } else {
            Err(RateError::UnexpectedReply)
        }
    }
}

/// How a `fetch` reply vector is read: the same estimate from both
/// counters as they stand, absent counters as zero.
pub open spec fn fetch_outcome(
    rs: Seq<ReplyModel>,
    now_millis: u64,
    size_secs: u64,
) -> Result<nat, RateError>
    recommends
        size_secs > 0,
{
    if rs.len() == 1 && rs[0] is OptUints {
        let vals = rs[0]->OptUints_0;
        if has_previous(size_secs, now_millis) {
            if vals.len() == 2 {
                let p = match vals[0] {
                    Some(n) => n,
                    None => 0,
                };
                let c = match vals[1] {
                    Some(n) => n,
                    None => 0,
                };
                Ok(
                    cap_u64(
                        weighted_estimate(p as int, c as int, now_millis as int, size_secs as int),
                    ) as nat,
                )
            } else {
                Err(RateError::UnexpectedReply)
            }
        } else {
            if vals.len() == 1 {
                let c = match vals[0] {
                    Some(n) => n,
                    None => 0,
                };
                Ok(
                    cap_u64(
                        weighted_estimate(0, c as int, now_millis as int, size_secs as int),
                    ) as nat,
                )
            } else {
                Err(RateError::UnexpectedReply)
            }
        }
    } else {
        Err(RateError::UnexpectedReply)
    }
}

/// Interpret the replies of a `record` batch.
pub fn record_sliding_window_count(
    replies: &Vec<StoreReply>,
    now_millis: u64,
    size_secs: u64,
) -> (r: Result<u64, RateError>)
    requires
        size_secs > 0,
        1000 * (size_secs as int) <= u64::MAX,
    ensures
        outcome_matches(r, record_outcome(replies_view(replies@), now_millis, size_secs)),
{
    let now_secs = now_millis / 1000;
    let epoch = current_epoch(now_secs, size_secs);
    if epoch >= size_secs {
        if replies.len() == 2 {
            match (&replies[0], &replies[1]) {
                (StoreReply::OptUint(p), StoreReply::Uint(c)) => Ok(
                    sliding_window_count(*p, Some(*c), now_millis, size_secs),
                ),
                _ => Err(RateError::UnexpectedReply),
            }
        } else {
            Err(RateError::UnexpectedReply)
        }
    } else {
        if replies.len() == 1 {
            match &replies[0] {
                StoreReply::Uint(c) => Ok(sliding_window_count(None, Some(*c), now_millis, size_secs)),
                _ => Err(RateError::UnexpectedReply),
            }
        } else {
            Err(RateError::UnexpectedReply)
        }
    }
}

/// Interpret the replies of a `fetch` batch.
pub fn fetch_sliding_window_count(
    replies: &Vec<StoreReply>,
    now_millis: u64,
    size_secs: u64,
) -> (r: Result<u64, RateError>)
    requires
        size_secs > 0,
        1000 * (size_secs as int) <= u64::MAX,
    ensures
        outcome_matches(r, fetch_outcome(replies_view(replies@), now_millis, size_secs)),
{
    let now_secs = now_millis / 1000;
    let epoch = current_epoch(now_secs, size_secs);
    if replies.len() == 1 {
        match &replies[0] {
            StoreReply::OptUints(vals) => {
                if epoch >= size_secs {
                    if vals.len() == 2 {
                        let p = vals[0];
                        let c = vals[1];
                        Ok(sliding_window_count(p, c, now_millis, size_secs))
                    } else {
                        Err(RateError::UnexpectedReply)
                    }
                } else {
                    if vals.len() == 1 {
                        let c = vals[0];
                        Ok(sliding_window_count(None, c, now_millis, size_secs))
                    } else {
                        Err(RateError::UnexpectedReply)
                    }
                }
            },
            _ => Err(RateError::UnexpectedReply),
        }
    } else {
        Err(RateError::UnexpectedReply)
    }
}

/// The count a `record` call comes back with, against a given store state.
pub open spec fn record_result(
    s: StoreModel,
    resource: Seq<char>,
    subject: Seq<char>,
    size_secs: u64,
    now_millis: u64,
) -> Result<nat, RateError> {
    record_outcome(
        run_batch(s, record_plan(resource, subject, size_secs, now_millis)).1,
        now_millis,
        size_secs,
    )
}

/// The store state a `record` call leaves behind.
pub open spec fn record_post(
    s: StoreModel,
    resource: Seq<char>,
    subject: Seq<char>,
    size_secs: u64,
    now_millis: u64,
) -> StoreModel {
    run_batch(s, record_plan(resource, subject, size_secs, now_millis)).0
}

/// The count a `fetch` call comes back with.
pub open spec fn fetch_result(
    s: StoreModel,
    resource: Seq<char>,
    subject: Seq<char>,
    size_secs: u64,
    now_millis: u64,
) -> Result<nat, RateError> {
    fetch_outcome(
        run_batch(s, fetch_plan(resource, subject, size_secs, now_millis)).1,
        now_millis,
        size_secs,
    )
}

/// The previous window's count as a `record` or `fetch` call sees it:
/// the counter under the previous key, zero when absent or when no
/// previous window exists.
pub open spec fn previous_count(
    s: StoreModel,
    resource: Seq<char>,
    subject: Seq<char>,
    size_secs: u64,
    now_millis: u64,
) -> nat {
    if has_previous(size_secs, now_millis) {
        counter_at(s, previous_key(resource, subject, size_secs, now_millis))
    } else {
        0
    }
}

/// One `record` call returns the weighted estimate over the previous
/// window's counter as it stood and the current window's counter after
/// this call's own increment — read and increment consistent within one
/// transaction — and changes nothing but that counter.
pub proof fn lemma_record_sliding_window_step(
    s: StoreModel,
    resource: Seq<char>,
    subject: Seq<char>,
    size_secs: u64,
    now_millis: u64,
)
    requires
        size_secs > 0,
    ensures
        ({
            let ckey = current_key(resource, subject, size_secs, now_millis);
            let cur_after = counter_at(s, ckey) + 1;
            let prev = previous_count(s, resource, subject, size_secs, now_millis);
            &&& record_result(s, resource, subject, size_secs, now_millis) == Ok::<
                nat,
                RateError,
            >(
                cap_u64(
                    weighted_estimate(
                        prev as int,
                        cur_after as int,
                        now_millis as int,
                        size_secs as int,
                    ),
                ) as nat,
            )
            &&& record_post(s, resource, subject, size_secs, now_millis).counters
                == s.counters.insert(ckey, cur_after)
            &&& record_post(s, resource, subject, size_secs, now_millis).logs == s.logs
        }),
{
    let plan = record_plan(resource, subject, size_secs, now_millis);
    let ckey = current_key(resource, subject, size_secs, now_millis);
    let cur_after = counter_at(s, ckey) + 1;
    let s1 = StoreModel { counters: s.counters.insert(ckey, cur_after), ..s };
    if has_previous(size_secs, now_millis) {
        let pkey = previous_key(resource, subject, size_secs, now_millis);
        let r0 = ReplyModel::OptUint(
            if s.counters.dom().contains(pkey) {
                Some(s.counters[pkey])
            } else {
                None
            },
        );
        assert(apply_cmd(s, plan[0].cmd) == (s, r0));
        let rest = plan.drop_first();
        assert(rest =~= seq![plan[1], plan[2]]);
        assert(apply_cmd(s, rest[0].cmd) == (s1, ReplyModel::Uint(cur_after)));
        let tail = rest.drop_first();
        assert(tail =~= seq![plan[2]]);
        assert(apply_cmd(s1, tail[0].cmd) == (s1, ReplyModel::Ack));
        assert(tail.drop_first() =~= Seq::<PlanStep>::empty());
        assert(run_batch(s1, tail.drop_first()).1 =~= Seq::<ReplyModel>::empty());
        assert(run_batch(s1, tail).0 == s1);
        assert(run_batch(s1, tail).1 =~= Seq::<ReplyModel>::empty());
        assert(run_batch(s, rest).0 == s1);
        assert(run_batch(s, rest).1 =~= seq![ReplyModel::Uint(cur_after)]);
        assert(run_batch(s, plan).0 == s1);
        assert(run_batch(s, plan).1 =~= seq![r0, ReplyModel::Uint(cur_after)]);
    } else {
        assert(apply_cmd(s, plan[0].cmd) == (s1, ReplyModel::Uint(cur_after)));
        let tail = plan.drop_first();
        assert(tail =~= seq![plan[1]]);
        assert(apply_cmd(s1, tail[0].cmd) == (s1, ReplyModel::Ack));
        assert(tail.drop_first() =~= Seq::<PlanStep>::empty());
        assert(run_batch(s1, tail.drop_first()).1 =~= Seq::<ReplyModel>::empty());
        assert(run_batch(s1, tail).0 == s1);
        assert(run_batch(s1, tail).1 =~= Seq::<ReplyModel>::empty());
        assert(run_batch(s, plan).0 == s1);
        assert(run_batch(s, plan).1 =~= seq![ReplyModel::Uint(cur_after)]);
    }
}

/// One `fetch` call returns the weighted estimate over both counters as
/// they stand and leaves the store untouched.
pub proof fn lemma_fetch_sliding_window(
    s: StoreModel,
    resource: Seq<char>,
    subject: Seq<char>,
    size_secs: u64,
    now_millis: u64,
)
    requires
        size_secs > 0,
    ensures
        fetch_result(s, resource, subject, size_secs, now_millis) == Ok::<nat, RateError>(
            cap_u64(
                weighted_estimate(
                    previous_count(s, resource, subject, size_secs, now_millis) as int,
                    counter_at(s, current_key(resource, subject, size_secs, now_millis)) as int,
                    now_millis as int,
                    size_secs as int,
                ),
            ) as nat,
        ),
        run_batch(s, fetch_plan(resource, subject, size_secs, now_millis)).0 == s,
{
    let plan = fetch_plan(resource, subject, size_secs, now_millis);
    let ckey = current_key(resource, subject, size_secs, now_millis);
    let read = |k: Seq<char>|
        if s.counters.dom().contains(k) {
            Some(s.counters[k])
        } else {
            None
        };
    assert(plan.drop_first() =~= Seq::<PlanStep>::empty());
    assert(run_batch(s, plan.drop_first()).1 =~= Seq::<ReplyModel>::empty());
    if has_previous(size_secs, now_millis) {
        let pkey = previous_key(resource, subject, size_secs, now_millis);
        let vals = seq![pkey, ckey].map_values(read);
        assert(apply_cmd(s, plan[0].cmd) == (s, ReplyModel::OptUints(vals)));
        assert(vals.len() == 2);
        assert(vals[0] == read(pkey) && vals[1] == read(ckey));
        assert(run_batch(s, plan).1 =~= seq![ReplyModel::OptUints(vals)]);
        let got = match vals[0] {
            Some(n) => n,
            None => 0,
        };
        assert(got == counter_at(s, pkey));
        let gotc = match vals[1] {
            Some(n) => n,
            None => 0,
        };
        assert(gotc == counter_at(s, ckey));
    } else {
        let vals = seq![ckey].map_values(read);
        assert(apply_cmd(s, plan[0].cmd) == (s, ReplyModel::OptUints(vals)));
        assert(vals.len() == 1);
        assert(vals[0] == read(ckey));
        assert(run_batch(s, plan).1 =~= seq![ReplyModel::OptUints(vals)]);
        let gotc = match vals[0] {
            Some(n) => n,
            None => 0,
        };
        assert(gotc == counter_at(s, ckey));
    }
}

} // verus!
