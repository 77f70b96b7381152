use vk_gateway::rate_limiter::{
    block_key, block_marker, check_step_next, count_key, denial_message, extract_upload_token,
    proceed_after_block_check, rate_limit_info, rate_limit_rejection, ttl_source, verdict_for_count, CheckOutcome,
    CheckPhase, RateLimiterConfig, StoreCommand, StoreReply, TtlSource,
};
use vk_gateway::routing::RouteError;

/// A store held in memory: whether the block key exists, and the counter.
struct MemoryStore {
    blocked: bool,
    count: u32,
}

fn run_check(store: &mut MemoryStore, config: &RateLimiterConfig) -> (bool, Vec<StoreCommand>) {
    let mut phase = CheckPhase::Start;
    let mut reply = StoreReply::Begin;
    let mut commands = Vec::new();
    loop {
        let (next, command) = check_step_next(phase, reply, config);
        commands.push(command);
        phase = next;
        reply = match command {
            StoreCommand::CheckBlocked => StoreReply::Blocked(store.blocked),
            StoreCommand::Increment => {
                store.count += 1;
                StoreReply::Count(store.count)
            },
            StoreCommand::SetExpiry(_) => StoreReply::Done,
            StoreCommand::InstallBlock(_) => {
                store.blocked = true;
                StoreReply::Done
            },
            StoreCommand::DeleteCount => {
                store.count = 0;
                StoreReply::Done
            },
            StoreCommand::Finish(allowed) => return (allowed, commands),
        };
    }
}

#[test]
fn default_limits() {
    let c = RateLimiterConfig::default();
    assert_eq!(c.max_requests, 10);
    assert_eq!(c.window_secs, 60);
    assert_eq!(c.block_duration_secs, 300);
}

#[test]
fn keys_for_a_token() {
    assert_eq!(block_key("T"), "rate_limit:blocked:T");
    assert_eq!(count_key("T"), "rate_limit:count:T");
    assert_eq!(block_marker(), "blocked");
    assert_eq!(denial_message(), "Rate limit exceeded. Token is temporarily blocked.");
}

#[test]
fn breach_after_two_requests() {
    let c = RateLimiterConfig { max_requests: 2, window_secs: 60, block_duration_secs: 300 };
    assert!(proceed_after_block_check(false));
    let v1 = verdict_for_count(1, &c);
    assert!(v1.set_expiry && v1.allowed());
    let v2 = verdict_for_count(2, &c);
    assert!(!v2.set_expiry && v2.allowed());
    let v3 = verdict_for_count(3, &c);
    assert!(v3.block && !v3.allowed());
    assert!(!proceed_after_block_check(true));
}

#[test]
fn cleared_token_is_served() {
    let c = RateLimiterConfig::default();
    assert!(proceed_after_block_check(false));
    assert!(verdict_for_count(1, &c).allowed());
}

#[test]
fn zero_limit_denies_first_request() {
    let c = RateLimiterConfig { max_requests: 0, window_secs: 60, block_duration_secs: 300 };
    let v = verdict_for_count(1, &c);
    assert!(v.set_expiry && v.block);
}

#[test]
fn store_failure_lets_request_through() {
    assert_eq!(rate_limit_rejection(CheckOutcome::Allowed), None);
    assert_eq!(rate_limit_rejection(CheckOutcome::StoreFailed), None);
    let e = rate_limit_rejection(CheckOutcome::Denied).unwrap();
    assert_eq!(e, RouteError::RateExceeded);
    assert_eq!(e.status_code(), 429);
}

#[test]
fn breach_sequence_through_the_steps() {
    let c = RateLimiterConfig { max_requests: 2, window_secs: 60, block_duration_secs: 300 };
    let mut store = MemoryStore { blocked: false, count: 0 };
    let (ok1, cmds1) = run_check(&mut store, &c);
    assert!(ok1);
    assert_eq!(
        cmds1,
        vec![StoreCommand::CheckBlocked, StoreCommand::Increment, StoreCommand::SetExpiry(60), StoreCommand::Finish(true)]
    );
    assert_eq!(store.count, 1);
    let (ok2, cmds2) = run_check(&mut store, &c);
    assert!(ok2);
    assert_eq!(cmds2.len(), 3);
    assert_eq!(store.count, 2);
    let (ok3, cmds3) = run_check(&mut store, &c);
    assert!(!ok3);
    assert_eq!(
        cmds3,
        vec![
            StoreCommand::CheckBlocked,
            StoreCommand::Increment,
            StoreCommand::InstallBlock(300),
            StoreCommand::DeleteCount,
            StoreCommand::Finish(false),
        ]
    );
    assert!(store.blocked);
    assert_eq!(store.count, 0);
    for _ in 0..5 {
        let (ok, cmds) = run_check(&mut store, &c);
        assert!(!ok);
        assert_eq!(cmds, vec![StoreCommand::CheckBlocked, StoreCommand::Finish(false)]);
    }
}

#[test]
fn cleared_store_serves_next_check() {
    let c = RateLimiterConfig::default();
    let mut store = MemoryStore { blocked: false, count: 0 };
    assert!(run_check(&mut store, &c).0);
}

#[test]
fn zero_limit_sets_expiry_then_blocks() {
    let c = RateLimiterConfig { max_requests: 0, window_secs: 60, block_duration_secs: 300 };
    let mut store = MemoryStore { blocked: false, count: 0 };
    let (ok, cmds) = run_check(&mut store, &c);
    assert!(!ok);
    assert_eq!(cmds[2], StoreCommand::SetExpiry(60));
    assert_eq!(cmds[3], StoreCommand::InstallBlock(300));
}

#[test]
fn unexpected_reply_lets_request_through() {
    let c = RateLimiterConfig::default();
    let (phase, cmd) = check_step_next(CheckPhase::AwaitCount, StoreReply::Done, &c);
    assert_eq!(phase, CheckPhase::Finished);
    assert_eq!(cmd, StoreCommand::Finish(true));
}

#[test]
fn token_from_headers() {
    assert_eq!(extract_upload_token(Some("Bearer abc"), Some("zzz")), Some("abc".to_string()));
    assert_eq!(extract_upload_token(Some("Basic abc"), Some("zzz")), Some("zzz".to_string()));
    assert_eq!(extract_upload_token(None, Some("zzz")), Some("zzz".to_string()));
    assert_eq!(extract_upload_token(Some("Basic abc"), None), None);
    assert_eq!(extract_upload_token(None, None), None);
    assert_eq!(extract_upload_token(Some("Bearer "), None), Some(String::new()));
}

#[test]
fn info_from_store_answers() {
    let i = rate_limit_info(true, None, 120);
    assert!(i.is_blocked);
    assert_eq!(i.request_count, 0);
    assert_eq!(i.ttl_seconds, Some(120));
    let i = rate_limit_info(false, Some(4), -1);
    assert_eq!(i.request_count, 4);
    assert_eq!(i.ttl_seconds, None);
    assert_eq!(rate_limit_info(false, Some(1), 0).ttl_seconds, None);
    assert_eq!(ttl_source(true, true), TtlSource::BlockKey);
    assert_eq!(ttl_source(false, true), TtlSource::CountKey);
    assert_eq!(ttl_source(false, false), TtlSource::Neither);
}
