//! Decisions of the per-token rate limiter. The counters live in an outside
//! key-value store; this module says which keys to touch and what each
//! answer of the store means.

use vstd::prelude::*;
use crate::routing::RouteError;
use crate::text::{has_prefix, join_text};

verus! {

/// Limits for one token.
#[derive(Debug, Clone, Copy, PartialEq, Eq, Structural)]
pub struct RateLimiterConfig {
    pub max_requests: u32,
    pub window_secs: u64,
    pub block_duration_secs: u64,
}

impl Default for RateLimiterConfig {
    fn default() -> (r: Self)
        ensures
            r.max_requests == 10,
            r.window_secs == 60,
            r.block_duration_secs == 300,
    {
        RateLimiterConfig { max_requests: 10, window_secs: 60, block_duration_secs: 300 }
    }
}

/// The store key whose presence blocks `token`.
pub fn block_key(token: &str) -> (r: String)
    ensures
        r@ == "rate_limit:blocked:"@ + token@,
{
    join_text("rate_limit:blocked:", token)
}

/// The store key that counts the requests of `token` in the current window.
pub fn count_key(token: &str) -> (r: String)
    ensures
        r@ == "rate_limit:count:"@ + token@,
{
    join_text("rate_limit:count:", token)
}

/// The value stored under a block key.
pub fn block_marker() -> (r: &'static str)
    ensures
        r@ == "blocked"@,
{
    "blocked"
}

/// The body of the answer to a denied request.
pub fn denial_message() -> (r: &'static str)
    ensures
        r@ == "Rate limit exceeded. Token is temporarily blocked."@,
{
    "Rate limit exceeded. Token is temporarily blocked."
}

/// What to do once the store has said whether the token is blocked.
pub fn proceed_after_block_check(is_blocked: bool) -> (r: bool)
    ensures
        r == !is_blocked,
{
    !is_blocked
}

/// What follows the increment of a token's counter to `count`.
#[derive(Debug, Clone, Copy, PartialEq, Eq, Structural)]
pub struct CountVerdict {
    /// Give the counter its window's expiry (it was just created).
    pub set_expiry: bool,
    /// Install the block key, delete the counter and deny.
    pub block: bool,
}

impl CountVerdict {
    /// Whether the request is served.
    pub fn allowed(&self) -> (r: bool)
        ensures
            r == !self.block,
    {
        !self.block
    }
}

/// The verdict for a counter that the increment brought to `count`.
pub open spec fn verdict_spec(count: nat, max_requests: nat) -> CountVerdict {
    CountVerdict { set_expiry: count == 1, block: count > max_requests }
}

/// `verdict_spec`, executable.
pub fn verdict_for_count(count: u32, config: &RateLimiterConfig) -> (r: CountVerdict)
    ensures
        r == verdict_spec(count as nat, config.max_requests as nat),
{
    CountVerdict { set_expiry: count == 1, block: count > config.max_requests }
}

/// How one check against the store ended.
#[derive(Debug, Clone, Copy, PartialEq, Eq, Structural)]
pub enum CheckOutcome {
    Allowed,
    Denied,
    /// The store failed; the limiter lets the request through.
    StoreFailed,
}

/// How a request ends after its check: a denial answers `RateExceeded`
/// (429); anything else, a store failure included, goes on.
pub fn rate_limit_rejection(outcome: CheckOutcome) -> (r: Option<RouteError>)
    ensures
        r == if outcome == CheckOutcome::Denied {
            Some(RouteError::RateExceeded)
        } else {
            None::<RouteError>
        },
{
    match outcome {
        CheckOutcome::Denied => Some(RouteError::RateExceeded),
        _ => None,
    }
}

/// The token a request carries: `Authorization: Bearer <T>` first, then
/// `X-Upload-Token: <T>`.
pub open spec fn token_of(authorization: Option<Seq<char>>, upload_token: Option<Seq<char>>) -> Option<
    Seq<char>,
> {
    let bearer = "Bearer "@;
    match authorization {
        Some(a) if bearer.len() <= a.len() && a.subrange(0, bearer.len() as int) == bearer => Some(
            a.subrange(bearer.len() as int, a.len() as int),
        ),
        _ => upload_token,
    }
}

/// `token_of` over header values (a value that is not visible ASCII is
/// passed as absent).
pub fn extract_upload_token(authorization: Option<&str>, upload_token: Option<&str>) -> (r: Option<String>)
    ensures
        match token_of(
            match authorization {
                Some(a) => Some(a@),
                None => None,
            },
            match upload_token {
                Some(t) => Some(t@),
                None => None,
            },
        ) {
            Some(t) => r is Some && r->Some_0@ == t,
            None => r is None,
        },
{
    if let Some(a) = authorization {
        if has_prefix(a, "Bearer ") {
            let n = "Bearer ".unicode_len();
            return Some(String::from_str(a.substring_char(n, a.unicode_len())));
        }
    }
    match upload_token {
        Some(t) => Some(String::from_str(t)),
        None => None,
    }
}

/// What `get_rate_limit_info` reports for a token.
#[derive(Debug, Clone, Copy, PartialEq, Eq, Structural)]
pub struct RateLimitInfo {
    pub is_blocked: bool,
    pub request_count: u32,
    pub ttl_seconds: Option<u64>,
}

/// Which key's time-to-live describes a token.
#[derive(Debug, Clone, Copy, PartialEq, Eq, Structural)]
pub enum TtlSource {
    BlockKey,
    CountKey,
    Neither,
}

/// The block key while blocked, else the counter when there is one.
pub fn ttl_source(is_blocked: bool, has_count: bool) -> (r: TtlSource)
    ensures
        r == if is_blocked {
            TtlSource::BlockKey
        } else if has_count {
            TtlSource::CountKey
        } else {
            TtlSource::Neither
        },
{
    if is_blocked {
        TtlSource::BlockKey
    } else if has_count {
        TtlSource::CountKey
    } else {
        TtlSource::Neither
    }
}

/// The report from the store's answers; a time-to-live that is not
/// positive (no key, or no expiry) is given as none.
pub fn rate_limit_info(is_blocked: bool, request_count: Option<u32>, ttl: i64) -> (r: RateLimitInfo)
    ensures
        r.is_blocked == is_blocked,
        r.request_count == match request_count {
            Some(c) => c,
            None => 0,
        },
        r.ttl_seconds == if ttl > 0 {
            Some(ttl as u64)
        } else {
            None::<u64>
        },
{
    RateLimitInfo {
        is_blocked,
        request_count: match request_count {
            Some(c) => c,
            None => 0,
        },
        ttl_seconds: if ttl > 0 {
            Some(ttl as u64)
        } else {
            None
        },
    }
}

/// What the store holds for one token within a window: whether the block
/// key is present, and the counter (zero when absent).
pub struct RateState {
    pub blocked: bool,
    pub count: nat,
}

/// The state that clearing a token leaves.
pub open spec fn cleared() -> RateState {
    RateState { blocked: false, count: 0 }
}

/// One check of a token against the store in state `s`, with no key
/// expiring meanwhile: the next state and whether the request is served.
pub open spec fn check_step(s: RateState, max_requests: nat) -> (RateState, bool) {
    if !s.blocked {
        let v = verdict_spec(s.count + 1, max_requests);
        if v.block {
            (RateState { blocked: true, count: 0 }, false)
        } else {
            (RateState { blocked: false, count: s.count + 1 }, true)
        }
    } else {
        (s, false)
    }
}

/// `n` checks in a row: the final state and how many were served.
pub open spec fn run_checks(s: RateState, max_requests: nat, n: nat) -> (RateState, nat)
    decreases n,
{
    if n == 0 {
        (s, 0)
    } else {
        let (mid, served) = run_checks(s, max_requests, (n - 1) as nat);
        let (next, ok) = check_step(mid, max_requests);
        (next, if ok {
            served + 1
        } else {
            served
        })
    }
}

/// Within one window, starting from a cleared token, at most
/// `max_requests` checks are served; once the block is in place no check
/// is served.
pub proof fn lemma_window_limit(max_requests: nat, n: nat)
    ensures
        run_checks(cleared(), max_requests, n).1 <= max_requests,
        !run_checks(cleared(), max_requests, n).0.blocked ==> run_checks(cleared(), max_requests, n).1
            == run_checks(cleared(), max_requests, n).0.count,
        run_checks(cleared(), max_requests, n).0.count <= max_requests,
    decreases n,
{
    if n > 0 {
        lemma_window_limit(max_requests, (n - 1) as nat);
    }
}

/// While a token is blocked, every check is refused and the block stays.
pub proof fn lemma_blocked_denies(s: RateState, max_requests: nat, n: nat)
    requires
        s.blocked,
    ensures
        run_checks(s, max_requests, n).1 == 0,
        run_checks(s, max_requests, n).0 == s,
    decreases n,
{
    if n > 0 {
        lemma_blocked_denies(s, max_requests, (n - 1) as nat);
    }
}

/// After a token is cleared, its next check is served (given a limit of
/// at least one request).
pub proof fn lemma_clear_then_allow(max_requests: nat)
    requires
        max_requests >= 1,
    ensures
        check_step(cleared(), max_requests).1,
{
}


/// A request that a check makes of the store, or its end.
#[derive(Debug, Clone, Copy, PartialEq, Eq, Structural)]
pub enum StoreCommand {
    /// Ask whether the block key exists.
    CheckBlocked,
    /// Increment the counter and report its new value.
    Increment,
    /// Let the counter expire after this many seconds.
    SetExpiry(u64),
    /// Install the block key, expiring after this many seconds.
    InstallBlock(u64),
    /// Delete the counter.
    DeleteCount,
    /// The check is over: whether the request is served.
    Finish(bool),
}

/// What the store answered to the previous command.
#[derive(Debug, Clone, Copy, PartialEq, Eq, Structural)]
pub enum StoreReply {
    /// Nothing was asked yet.
    Begin,
    /// Whether the block key exists.
    Blocked(bool),
    /// The counter's value after the increment.
    Count(u32),
    /// The command was carried out.
    Done,
}

/// Where a check stands between two store round-trips.
#[derive(Debug, Clone, Copy, PartialEq, Eq, Structural)]
pub enum CheckPhase {
    Start,
    AwaitBlocked,
    AwaitCount,
    /// The expiry was set; `block` says whether a block follows.
    AwaitExpiry { block: bool },
    AwaitBlockInstalled,
    AwaitCountDeleted,
    Finished,
}

/// The next phase and command of a check, given the store's last reply.
pub open spec fn step_spec(phase: CheckPhase, reply: StoreReply, config: RateLimiterConfig) -> (CheckPhase, StoreCommand) {
    match (phase, reply) {
        (CheckPhase::Start, _) => (CheckPhase::AwaitBlocked, StoreCommand::CheckBlocked),
        (CheckPhase::AwaitBlocked, StoreReply::Blocked(b)) => if b {
            (CheckPhase::Finished, StoreCommand::Finish(false))
        } else {
            (CheckPhase::AwaitCount, StoreCommand::Increment)
        },
        (CheckPhase::AwaitCount, StoreReply::Count(n)) => {
            let v = verdict_spec(n as nat, config.max_requests as nat);
            if v.set_expiry {
                (CheckPhase::AwaitExpiry { block: v.block }, StoreCommand::SetExpiry(config.window_secs))
            } else if v.block {
                (CheckPhase::AwaitBlockInstalled, StoreCommand::InstallBlock(config.block_duration_secs))
            } else {
                (CheckPhase::Finished, StoreCommand::Finish(true))
            }
        },
        (CheckPhase::AwaitExpiry { block }, StoreReply::Done) => if block {
            (CheckPhase::AwaitBlockInstalled, StoreCommand::InstallBlock(config.block_duration_secs))
        } else {
            (CheckPhase::Finished, StoreCommand::Finish(true))
        },
        (CheckPhase::AwaitBlockInstalled, StoreReply::Done) => (
            CheckPhase::AwaitCountDeleted,
            StoreCommand::DeleteCount,
        ),
        (CheckPhase::AwaitCountDeleted, StoreReply::Done) => (CheckPhase::Finished, StoreCommand::Finish(false)),
        _ => (CheckPhase::Finished, StoreCommand::Finish(true)),
    }
}

/// One step of a check against the store: app/ carries out the command
/// and hands back the reply. A reply that does not fit the phase ends the
/// check by letting the request through, as a store failure does.
pub fn check_step_next(phase: CheckPhase, reply: StoreReply, config: &RateLimiterConfig) -> (r: (
    CheckPhase,
    StoreCommand,
))
    ensures
        r == step_spec(phase, reply, *config),
{
    match (phase, reply) {
        (CheckPhase::Start, _) => (CheckPhase::AwaitBlocked, StoreCommand::CheckBlocked),
        (CheckPhase::AwaitBlocked, StoreReply::Blocked(b)) => {
            if !proceed_after_block_check(b) {
                (CheckPhase::Finished, StoreCommand::Finish(false))
            } else {
                (CheckPhase::AwaitCount, StoreCommand::Increment)
            }
        },
        (CheckPhase::AwaitCount, StoreReply::Count(n)) => {
            let v = verdict_for_count(n, config);
            if v.set_expiry {
                (CheckPhase::AwaitExpiry { block: v.block }, StoreCommand::SetExpiry(config.window_secs))
            } else if v.block {
                (CheckPhase::AwaitBlockInstalled, StoreCommand::InstallBlock(config.block_duration_secs))
            } else {
                (CheckPhase::Finished, StoreCommand::Finish(true))
            }
        },
        (CheckPhase::AwaitExpiry { block }, StoreReply::Done) => {
            if block {
                (CheckPhase::AwaitBlockInstalled, StoreCommand::InstallBlock(config.block_duration_secs))
            } else {
                (CheckPhase::Finished, StoreCommand::Finish(true))
            }
        },
        (CheckPhase::AwaitBlockInstalled, StoreReply::Done) => (
            CheckPhase::AwaitCountDeleted,
            StoreCommand::DeleteCount,
        ),
        (CheckPhase::AwaitCountDeleted, StoreReply::Done) => (CheckPhase::Finished, StoreCommand::Finish(false)),
        _ => (CheckPhase::Finished, StoreCommand::Finish(true)),
    }
}

/// Runs the steps of a check against a store that holds `store` and
/// answers every command as a key-value store does, with no key expiring
/// meanwhile: the final store and the verdict, or `None` if `fuel` steps do
/// not finish it.
pub open spec fn drive(
    phase: CheckPhase,
    reply: StoreReply,
    store: RateState,
    config: RateLimiterConfig,
    fuel: nat,
) -> Option<(RateState, bool)>
    decreases fuel,
{
    if fuel == 0 {
        None
    } else {
        let (next, cmd) = step_spec(phase, reply, config);
        match cmd {
            StoreCommand::Finish(b) => Some((store, b)),
            StoreCommand::CheckBlocked => drive(next, StoreReply::Blocked(store.blocked), store, config, (fuel - 1) as nat),
            StoreCommand::Increment => drive(
                next,
                StoreReply::Count((store.count + 1) as u32),
                RateState { blocked: store.blocked, count: store.count + 1 },
                config,
                (fuel - 1) as nat,
            ),
            StoreCommand::SetExpiry(_) => drive(next, StoreReply::Done, store, config, (fuel - 1) as nat),
            StoreCommand::InstallBlock(_) => drive(
                next,
                StoreReply::Done,
                RateState { blocked: true, count: store.count },
                config,
                (fuel - 1) as nat,
            ),
            StoreCommand::DeleteCount => drive(
                next,
                StoreReply::Done,
                RateState { blocked: store.blocked, count: 0 },
                config,
                (fuel - 1) as nat,
            ),
        }
    }
}

/// The steps of `check_step_next`, run against the store, do exactly what
/// `check_step` says of one check (for a counter that fits in `u32`), so
/// the window bound and the block laws hold of them.
pub proof fn lemma_steps_follow_model(store: RateState, config: RateLimiterConfig)
    requires
        store.count < u32::MAX,
    ensures
        drive(CheckPhase::Start, StoreReply::Begin, store, config, 6) == Some(
            check_step(store, config.max_requests as nat),
        ),
{
    reveal_with_fuel(drive, 7);
}

} // verus!
