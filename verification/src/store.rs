//! The store interface: the commands a limiter operation batches together,
//! the replies it interprets, and a mathematical model of the counting
//! store that the correctness lemmas are proved against.
//!
//! The store executes one batch as a single atomic transaction: no other
//! client's commands interleave, and each command's reply comes back in
//! call order, with replies of commands marked `keep: false` suppressed.
//! This crate only builds batches and reads replies; the caller owns the
//! connection and the transaction round trip.

use vstd::prelude::*;

use crate::RateError;

verus! {

/// One store command, over plain keys and counts.
///
/// Sorted-set members here rank themselves: a log entry's member doubles as
/// its score, which is how the sliding log stores timestamps. Two events in
/// the same millisecond therefore collapse into one entry; the model keeps
/// that documented behaviour rather than hiding it.
#[derive(Debug)]
pub enum StoreCommand {
    /// Atomically add `amount` to the integer at `key` (absent reads as 0)
    /// and reply with the new value.
    IncrBy { key: String, amount: u64 },
    /// Set or refresh the time-to-live of `key`, in seconds.
    Expire { key: String, seconds: u64 },
    /// Reply with the integer at `key`, or nothing when the key is absent.
    Get { key: String },
    /// Reply with the integer at each key, in order; absent keys reply
    /// nothing at their position.
    MGet { keys: Vec<String> },
    /// Remove every member of the sorted set at `key` whose score is at
    /// most `max_score`.
    ZRemUpTo { key: String, max_score: u64 },
    /// Add `member` to the sorted set at `key`, scored by its own value.
    ZAdd { key: String, member: u64 },
    /// Reply with the number of members of the sorted set at `key`.
    ZCard { key: String },
}

/// One reply from the store, as the executing caller hands it back.
#[derive(Debug)]
pub enum StoreReply {
    /// An integer reply: a post-increment value or a cardinality.
    Uint(u64),
    /// An integer read that may find the key absent.
    OptUint(Option<u64>),
    /// One optional integer per key of a multi-key read, in key order.
    OptUints(Vec<Option<u64>>),
}

/// A command in a batch, with the flag saying whether its reply is kept or
/// suppressed.
#[derive(Debug)]
pub struct PlannedCommand {
    pub cmd: StoreCommand,
    pub keep: bool,
}

/// Ghost image of a command, over sequences of characters.
pub enum CmdModel {
    IncrBy { key: Seq<char>, amount: nat },
    Expire { key: Seq<char>, seconds: nat },
    Get { key: Seq<char> },
    MGet { keys: Seq<Seq<char>> },
    ZRemUpTo { key: Seq<char>, max_score: nat },
    ZAdd { key: Seq<char>, member: nat },
    ZCard { key: Seq<char> },
}

/// Ghost image of a reply. Counts are unbounded in the model; the machine
/// interpreters receive them as 64-bit values.
pub enum ReplyModel {
    Uint(nat),
    OptUint(Option<nat>),
    OptUints(Seq<Option<nat>>),
    /// A reply whose value no interpreter ever reads and the model does not
    /// track: acknowledgements of time-to-live updates, trims and inserts.
    Ack,
}

/// Ghost image of a planned command.
pub struct PlanStep {
    pub cmd: CmdModel,
    pub keep: bool,
}

impl View for StoreCommand {
    type V = CmdModel;

    open spec fn view(&self) -> CmdModel {
        match self {
            StoreCommand::IncrBy { key, amount } => CmdModel::IncrBy {
                key: key@,
                amount: *amount as nat,
            },
            StoreCommand::Expire { key, seconds } => CmdModel::Expire {
                key: key@,
                seconds: *seconds as nat,
            },
            StoreCommand::Get { key } => CmdModel::Get { key: key@ },
            StoreCommand::MGet { keys } => CmdModel::MGet {
                keys: keys@.map_values(|k: String| k@),
            },
            StoreCommand::ZRemUpTo { key, max_score } => CmdModel::ZRemUpTo {
                key: key@,
                max_score: *max_score as nat,
            },
            StoreCommand::ZAdd { key, member } => CmdModel::ZAdd {
                key: key@,
                member: *member as nat,
            },
            StoreCommand::ZCard { key } => CmdModel::ZCard { key: key@ },
        }
    }
}

impl View for StoreReply {
    type V = ReplyModel;

    open spec fn view(&self) -> ReplyModel {
        match self {
            StoreReply::Uint(n) => ReplyModel::Uint(*n as nat),
            StoreReply::OptUint(o) => ReplyModel::OptUint(
                match o {
                    Some(n) => Some(*n as nat),
                    None => None,
                },
            ),
            StoreReply::OptUints(v) => ReplyModel::OptUints(
                v@.map_values(
                    |o: Option<u64>|
                        match o {
                            Some(n) => Some(n as nat),
                            None => None,
                        },
                ),
            ),
        }
    }
}

impl View for PlannedCommand {
    type V = PlanStep;

    open spec fn view(&self) -> PlanStep {
        PlanStep { cmd: self.cmd@, keep: self.keep }
    }
}

/// The ghost view of a whole batch.
pub open spec fn plan_view(v: Seq<PlannedCommand>) -> Seq<PlanStep> {
    v.map_values(|p: PlannedCommand| p@)
}

/// The ghost view of a whole reply vector.
pub open spec fn replies_view(v: Seq<StoreReply>) -> Seq<ReplyModel> {
    v.map_values(|r: StoreReply| r@)
}

/// The store's persisted state, as the model sees it: an integer counter
/// per key and a self-scored member set per key. Time-to-live bookkeeping
/// is not modelled; expiry only ever deletes keys, and every law here holds
/// within one window, before any expiry is due.
pub struct StoreModel {
    pub counters: Map<Seq<char>, nat>,
    pub logs: Map<Seq<char>, Set<nat>>,
}

/// Every member set the model holds is finite, so that cardinality replies
/// are defined.
pub open spec fn store_wf(s: StoreModel) -> bool {
    forall|k: Seq<char>| #[trigger] s.logs.dom().contains(k) ==> s.logs[k].finite()
}

/// The counter at `key`; an absent key counts as zero.
pub open spec fn counter_at(s: StoreModel, key: Seq<char>) -> nat {
    if s.counters.dom().contains(key) {
        s.counters[key]
    } else {
        0
    }
}

/// The member set at `key`; an absent key holds the empty set.
pub open spec fn log_at(s: StoreModel, key: Seq<char>) -> Set<nat> {
    if s.logs.dom().contains(key) {
        s.logs[key]
    } else {
        Set::empty()
    }
}

/// The state after one command, paired with the command's reply.
pub open spec fn apply_cmd(s: StoreModel, c: CmdModel) -> (StoreModel, ReplyModel) {
    match c {
        CmdModel::IncrBy { key, amount } => {
            let n = counter_at(s, key) + amount;
            (StoreModel { counters: s.counters.insert(key, n), ..s }, ReplyModel::Uint(n))
        },
        CmdModel::Expire { key, seconds } => (s, ReplyModel::Ack),
        CmdModel::Get { key } => (
            s,
            ReplyModel::OptUint(
                if s.counters.dom().contains(key) {
                    Some(s.counters[key])
                } else {
                    None
                },
            ),
        ),
        CmdModel::MGet { keys } => (
            s,
            ReplyModel::OptUints(
                keys.map_values(
                    |k: Seq<char>|
                        if s.counters.dom().contains(k) {
                            Some(s.counters[k])
                        } else {
                            None
                        },
                ),
            ),
        ),
        CmdModel::ZRemUpTo { key, max_score } => (
            StoreModel {
                logs: s.logs.insert(key, log_at(s, key).filter(|m: nat| m > max_score)),
                ..s
            },
            ReplyModel::Ack,
        ),
        CmdModel::ZAdd { key, member } => (
            StoreModel { logs: s.logs.insert(key, log_at(s, key).insert(member)), ..s },
            ReplyModel::Ack,
        ),
        CmdModel::ZCard { key } => (s, ReplyModel::Uint(log_at(s, key).len())),
    }
}

/// The state after a whole batch, with the kept replies in call order:
/// the atomic transaction, run start to finish with no interleaving.
pub open spec fn run_batch(s: StoreModel, steps: Seq<PlanStep>) -> (StoreModel, Seq<ReplyModel>)
    decreases steps.len(),
{
    if steps.len() == 0 {
        (s, Seq::empty())
    } else {
        let (s1, r) = apply_cmd(s, steps[0].cmd);
        let (s2, rest) = run_batch(s1, steps.drop_first());
        (s2, if steps[0].keep {
            seq![r] + rest
        } else {
            rest
        })
    }
}

/// How a reply vector with exactly one kept integer reply is read: the
/// count, or the defensive error when the collaborator answered in another
/// shape.
pub open spec fn counted_outcome(rs: Seq<ReplyModel>) -> Result<nat, RateError> {
    if rs.len() == 1 && rs[0] is Uint {
        Ok(rs[0]->Uint_0)
    } else {
        Err(RateError::UnexpectedReply)
    }
}

/// The machine result agrees with the model outcome, error for error and
/// count for count.
pub open spec fn outcome_matches(r: Result<u64, RateError>, o: Result<nat, RateError>) -> bool {
    match r {
        Ok(n) => o is Ok && o->Ok_0 == n as nat,
        Err(e) => o is Err && o->Err_0 == e,
    }
}

/// Interpret the replies of a batch whose one kept command is a count:
/// the shape shared by fixed window `record`, sliding log `record` and
/// sliding log `fetch`.
pub fn single_count_reply(replies: &Vec<StoreReply>) -> (r: Result<u64, RateError>)
    ensures
        outcome_matches(r, counted_outcome(replies_view(replies@))),
{
    if replies.len() == 1 {
        match &replies[0] {
            StoreReply::Uint(n) => Ok(*n),
            _ => Err(RateError::UnexpectedReply),
        }
    } else {
        Err(RateError::UnexpectedReply)
    }
}

/// Applying any command keeps the member sets finite.
pub proof fn lemma_apply_cmd_wf(s: StoreModel, c: CmdModel)
    requires
        store_wf(s),
    ensures
        store_wf(apply_cmd(s, c).0),
{
    match c {
        CmdModel::ZRemUpTo { key, max_score } => {
            if log_at(s, key).finite() {
                log_at(s, key).lemma_len_filter(|m: nat| m > max_score);
            }
        },
        _ => {},
    }
}

/// Running any batch keeps the member sets finite.
pub proof fn lemma_run_batch_wf(s: StoreModel, steps: Seq<PlanStep>)
    requires
        store_wf(s),
    ensures
        store_wf(run_batch(s, steps).0),
    decreases steps.len(),
{
    if steps.len() > 0 {
        lemma_apply_cmd_wf(s, steps[0].cmd);
        lemma_run_batch_wf(apply_cmd(s, steps[0].cmd).0, steps.drop_first());
    }
}

} // verus!
