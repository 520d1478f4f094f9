//! The account pool.

use qwen2api_rs::account::Account;
use qwen2api_rs::email_set::EmailSet;
use qwen2api_rs::pool::account_pool::{AccountPool, PoolSettings};
use qwen2api_rs::pool::index::Loc;
use qwen2api_rs::pool::outcome::cooldown;
use qwen2api_rs::pool::wait::{WaitPhase, WaitStep};
use rand::{Rng, SeedableRng};

const NOW: u64 = 1_700_000_000_000_000;
const SECOND: u64 = 1_000_000;

fn mk(email: &str, valid: bool, inflight: i64, rl_until: u64, started: u64, finished: u64) -> Account {
    let mut a = Account::new(
        email.to_string(),
        String::new(),
        format!("tok-{email}"),
        String::new(),
        String::new(),
    );
    a.valid = valid;
    a.inflight = inflight;
    a.rate_limited_until = rl_until as u128;
    a.last_request_started = started as u128;
    a.last_request_finished = finished as u128;
    a
}

fn test_pool(accounts: Vec<Account>, use_index: bool, min_ms: u64, cap: i64) -> AccountPool {
    let settings = PoolSettings {
        max_inflight_per_account: cap,
        pool_ready_index: use_index,
        account_min_interval_ms: min_ms,
        request_jitter_min_ms: 0,
        request_jitter_max_ms: 0,
        rate_limit_base_cooldown: 600,
        rate_limit_max_cooldown: 3600,
        auth_error_fail_threshold: 1,
    };
    AccountPool::load(&settings, accounts, NOW)
}

fn account<'a>(pool: &'a AccountPool, email: &str) -> &'a Account {
    &pool.state.accounts[pool.state.account_pos(email).unwrap()]
}

#[test]
fn parity_and_validity_no_interval() {
    let now = NOW;
    let accounts = vec![
        mk("a", true, 0, 0, 0, 0),
        mk("b", true, 0, 0, 0, 0),
        mk("c", false, 0, 0, 0, 0),
        mk("d", true, 0, now + 9999 * SECOND, 0, 0),
        mk("e", true, 1, 0, 0, 0),
        mk("f", true, 2, 0, 0, 0),
        mk("g", true, 0, 0, 0, 0),
    ];
    let cap = 2;
    let exclude = EmailSet::new();

    let drain = |use_index: bool| -> usize {
        let mut pool = test_pool(accounts.clone(), use_index, 0, cap);
        let mut n = 0;
        while let Some(h) = pool.acquire(None, &exclude, now, 0) {
            let a = account(&pool, &h.email);
            assert!(a.valid, "took a broken account {}", h.email);
            assert!(a.inflight <= cap, "over the load: {} inflight={}", h.email, a.inflight);
            assert!(a.rate_limited_until <= now as u128, "took a rate limited account {}", h.email);
            n += 1;
            assert!(n < 1000, "does not end");
        }
        n
    };

    let n_idx = drain(true);
    let n_scan = drain(false);
    assert_eq!(n_idx, n_scan);
    assert_eq!(n_scan, 7);
}

#[test]
fn cooldown_blocks_immediate_reacquire() {
    let accounts = vec![mk("solo", true, 0, 0, 0, 0)];
    let mut pool = test_pool(accounts, true, 3000, 2);
    let ex = EmailSet::new();
    let first = pool.acquire(None, &ex, NOW, 0);
    assert!(first.is_some());
    let second = pool.acquire(None, &ex, NOW, 0);
    assert!(second.is_none());
    assert!(pool.acquire(None, &ex, NOW + 3 * SECOND - 1, 0).is_none());
    assert!(pool.acquire(None, &ex, NOW + 3 * SECOND, 0).is_some());
}

#[test]
fn exclude_falls_through() {
    let accounts = vec![mk("x", true, 0, 0, 0, 0), mk("y", true, 0, 0, 0, 0)];
    let mut pool = test_pool(accounts, true, 0, 1);
    let mut ex = EmailSet::new();
    ex.insert("x".to_string());
    let h = pool.acquire(None, &ex, NOW, 0);
    assert_eq!(h.map(|h| h.email), Some("y".to_string()));
    ex.insert("y".to_string());
    assert!(pool.acquire(None, &ex, NOW, 0).is_none());
}

#[test]
fn mark_invalid_writes_last_error_and_honors_threshold() {
    let mut pool = test_pool(vec![mk("t", true, 0, 0, 0, 0)], true, 0, 2);
    pool.auth_error_threshold = 3;

    pool.mark_invalid("t", "auth_error", "upstream 401 X", NOW);
    {
        let a = account(&pool, "t");
        assert_eq!(a.last_error, "upstream 401 X");
        assert_eq!(a.status_code, "auth_error");
        assert_eq!(a.consecutive_failures, 1);
        assert!(a.valid);
    }

    pool.mark_invalid("t", "auth_error", "upstream 401 Y", NOW);
    {
        let a = account(&pool, "t");
        assert_eq!(a.consecutive_failures, 2);
        assert!(a.valid);
        assert_eq!(a.last_error, "upstream 401 Y");
    }

    pool.mark_invalid("t", "auth_error", "upstream 401 Z", NOW);
    {
        let a = account(&pool, "t");
        assert_eq!(a.consecutive_failures, 3);
        assert!(!a.valid);
    }

    pool.apply_verify("t", true, "valid", "", NOW);
    {
        let a = account(&pool, "t");
        assert_eq!(a.consecutive_failures, 0);
        assert!(a.valid);
    }

    pool.mark_invalid("t", "pending_activation", "尚未激活", NOW);
    {
        let a = account(&pool, "t");
        assert!(!a.valid);
        assert!(a.activation_pending);
    }
}

#[test]
fn release_returns_to_ready() {
    let accounts = vec![mk("r", true, 0, 0, 0, 0)];
    let mut pool = test_pool(accounts, true, 0, 1);
    let ex = EmailSet::new();
    assert!(pool.acquire(None, &ex, NOW, 0).is_some());
    assert!(pool.acquire(None, &ex, NOW, 0).is_none());
    assert_eq!(pool.state.global_in_use, 1);

    let pos = pool.state.account_pos("r").unwrap();
    pool.state.accounts[pos].inflight = 0;
    pool.state.reindex_email("r", 0, NOW);
    pool.state.global_in_use = 0;
    assert!(pool.acquire(None, &ex, NOW, 0).is_some());
}

fn check_consistency(pool: &AccountPool, min_ms: u64, now: u64) {
    let st = &pool.state;
    let Some(idx) = st.idx.as_ref() else { return };
    let cap = st.max_inflight_per_account;
    assert_eq!(idx.pos.len(), st.accounts.len());
    for (i, a) in st.accounts.iter().enumerate() {
        assert_eq!(idx.pos.get(&a.email), Some(&i));
        let expected = if !a.valid || a.inflight >= cap {
            Loc::Idle
        } else if a.is_available(min_ms, now) {
            Loc::Ready
        } else {
            Loc::Cooldown
        };
        assert_eq!(idx.loc.get(&a.email), Some(&expected), "{}", a.email);
    }
    for x in &idx.ready.items {
        if idx.loc.get(&x.email) == Some(&Loc::Ready) {
            let a = &st.accounts[*idx.pos.get(&x.email).unwrap()];
            assert!(
                a.valid && a.is_available(min_ms, now) && a.inflight < cap,
                "ready holds {}",
                x.email
            );
        }
    }
}

#[test]
fn random_ops_keep_index_consistent() {
    let mut rng = rand::rngs::StdRng::seed_from_u64(0x00C0FFEE);
    let n = 12usize;
    let cap = 2i64;
    let min_ms = 0u64;
    let accounts: Vec<Account> = (0..n).map(|i| mk(&format!("acc{i}"), true, 0, 0, 0, 0)).collect();
    let mut pool = test_pool(accounts, true, min_ms, cap);
    let emails: Vec<String> = (0..n).map(|i| format!("acc{i}")).collect();
    let ex = EmailSet::new();
    let mut held: Vec<String> = Vec::new();
    let mut now = NOW;

    for _ in 0..4000 {
        now += 1;
        match rng.gen_range(0..7) {
            0 | 1 => {
                if let Some(h) = pool.acquire(None, &ex, now, 0) {
                    let a = account(&pool, &h.email);
                    assert!(a.valid && a.inflight <= cap, "took {}", h.email);
                    held.push(h.email);
                }
            }
            2 => {
                if !held.is_empty() {
                    let i = rng.gen_range(0..held.len());
                    let e = held.remove(i);
                    pool.release(&e, now);
                }
            }
            3 => {
                let e = emails[rng.gen_range(0..n)].clone();
                pool.mark_rate_limited(&e, 0, now);
            }
            4 => {
                let e = emails[rng.gen_range(0..n)].clone();
                pool.mark_success(&e, now);
            }
            5 => {
                let e = emails[rng.gen_range(0..n)].clone();
                pool.mark_invalid(&e, "auth_error", "rand-test-error", now);
            }
            _ => {
                let e = emails[rng.gen_range(0..n)].clone();
                pool.apply_verify(&e, true, "valid", "", now);
            }
        }
        check_consistency(&pool, min_ms, now);
        assert_eq!(pool.state.global_in_use, held.len() as i64);
        for e in &emails {
            let taken = held.iter().filter(|h| *h == e).count();
            assert_eq!(account(&pool, e).inflight, taken as i64, "{e}");
        }
    }
}

#[test]
fn ready_prefers_least_inflight() {
    let accounts = vec![mk("a", true, 1, 0, 0, 0), mk("b", true, 0, 0, 0, 0)];
    let mut pool = test_pool(accounts, true, 0, 2);
    let ex = EmailSet::new();
    let h = pool.acquire(None, &ex, NOW, 0);
    assert_eq!(h.map(|h| h.email), Some("b".to_string()));
}

#[test]
fn scan_prefers_least_inflight_then_longest_idle() {
    let mut old = mk("old", true, 0, 0, 5, 0);
    old.last_used = 7;
    let accounts = vec![mk("busy", true, 1, 0, 0, 0), mk("new", true, 0, 0, 9, 0), old];
    let mut pool = test_pool(accounts, false, 0, 2);
    let ex = EmailSet::new();
    assert_eq!(pool.acquire(None, &ex, NOW, 0).unwrap().email, "old");
    assert_eq!(pool.acquire(None, &ex, NOW, 0).unwrap().email, "new");
}

#[test]
fn preferred_account_comes_first_and_brings_its_token() {
    for use_index in [true, false] {
        let accounts = vec![mk("a", true, 0, 0, 0, 0), mk("b", true, 1, 0, 0, 0)];
        let mut pool = test_pool(accounts, use_index, 0, 2);
        let ex = EmailSet::new();
        let h = pool.acquire(Some("b"), &ex, NOW, 0).unwrap();
        assert_eq!(h.email, "b");
        assert_eq!(h.token, "tok-b");
        // It is full now, so the preference falls through.
        assert_eq!(pool.acquire(Some("b"), &ex, NOW, 0).unwrap().email, "a");
    }
}

#[test]
fn only_candidate_becomes_sticky_without_index() {
    let mut pool = test_pool(vec![mk("a", true, 0, 0, 0, 0)], false, 0, 2);
    let ex = EmailSet::new();
    assert!(pool.acquire(None, &ex, NOW, 0).is_some());
    assert_eq!(pool.state.sticky_email.as_deref(), Some("a"));
    pool.mark_rate_limited("a", 0, NOW);
    assert_eq!(pool.state.sticky_email, None);
}

#[test]
fn jitter_delays_the_start_of_the_interval() {
    let mut pool = test_pool(vec![mk("a", true, 0, 0, 0, 0)], true, 1000, 2);
    let ex = EmailSet::new();
    assert!(pool.acquire(None, &ex, NOW, 250).is_some());
    assert_eq!(account(&pool, "a").last_request_started, (NOW + 250_000) as u128);
    assert!(pool.acquire(None, &ex, NOW + 1_249_999, 0).is_none());
    assert!(pool.acquire(None, &ex, NOW + 1_250_000, 0).is_some());
}

#[test]
fn release_undoes_acquire() {
    for use_index in [true, false] {
        let mut pool = test_pool(vec![mk("a", true, 0, 0, 0, 0)], use_index, 0, 2);
        let ex = EmailSet::new();
        let h = pool.acquire(None, &ex, NOW, 0).unwrap();
        assert_eq!(account(&pool, "a").inflight, 1);
        pool.release(&h.email, NOW + 5);
        assert_eq!(account(&pool, "a").inflight, 0);
        assert_eq!(account(&pool, "a").last_request_finished, (NOW + 5) as u128);
        assert_eq!(pool.state.global_in_use, 0);
        // Giving back once too often does not make a debt.
        pool.release(&h.email, NOW + 6);
        assert_eq!(account(&pool, "a").inflight, 0);
        assert_eq!(pool.state.global_in_use, 0);
    }
}

#[test]
fn global_limit_is_kept() {
    let accounts = vec![mk("a", true, 0, 0, 0, 0), mk("b", true, 0, 0, 0, 0)];
    let mut pool = test_pool(accounts, true, 0, 2);
    assert_eq!(pool.concurrency_config(), (2, 4, 4));
    pool.set_global_max_inflight(1, NOW);
    assert_eq!(pool.concurrency_config(), (2, 1, 1));
    let ex = EmailSet::new();
    assert!(pool.acquire(None, &ex, NOW, 0).is_some());
    assert!(pool.acquire(None, &ex, NOW, 0).is_none());
    pool.set_global_max_inflight(0, NOW);
    assert_eq!(pool.concurrency_config(), (2, 4, 4));
    assert!(pool.acquire(None, &ex, NOW, 0).is_some());
}

#[test]
fn max_inflight_is_at_least_one() {
    let mut pool = test_pool(vec![mk("a", true, 0, 0, 0, 0)], true, 0, 2);
    pool.set_max_inflight(0, NOW);
    assert_eq!(pool.concurrency_config(), (1, 1, 1));
    let ex = EmailSet::new();
    assert!(pool.acquire(None, &ex, NOW, 0).is_some());
    assert!(pool.acquire(None, &ex, NOW, 0).is_none());
    pool.set_max_inflight(3, NOW);
    assert_eq!(pool.concurrency_config(), (3, 3, 3));
    assert!(pool.acquire(None, &ex, NOW, 0).is_some());
}

#[test]
fn interval_change_takes_effect_at_once() {
    let mut pool = test_pool(vec![mk("a", true, 0, 0, 0, 0)], true, 3000, 2);
    let ex = EmailSet::new();
    assert!(pool.acquire(None, &ex, NOW, 0).is_some());
    assert!(pool.acquire(None, &ex, NOW + 1, 0).is_none());
    pool.set_min_interval(0);
    assert_eq!(pool.min_interval_ms(), 0);
    assert!(pool.acquire(None, &ex, NOW + 1, 0).is_some());
}

#[test]
fn cooldown_doubles_up_to_the_maximum() {
    assert_eq!(cooldown(600, 3600, 1), 600);
    assert_eq!(cooldown(600, 3600, 2), 1200);
    assert_eq!(cooldown(600, 3600, 3), 2400);
    assert_eq!(cooldown(600, 3600, 4), 3600);
    assert_eq!(cooldown(600, 3600, 5000), 3600);
    assert_eq!(cooldown(600, 3600, 0), 600);
    assert_eq!(cooldown(0, 3600, 9), 0);
    assert_eq!(cooldown(5000, 3600, 1), 3600);
    assert_eq!(cooldown(1, u64::MAX, 65), u64::MAX);
    assert_eq!(cooldown(1, u64::MAX, 64), 1 << 63);
}

#[test]
fn rate_limit_rests_the_account_and_success_ends_it() {
    let mut pool = test_pool(vec![mk("a", true, 0, 0, 0, 0)], true, 0, 2);
    let ex = EmailSet::new();
    pool.mark_rate_limited("a", 4999, NOW);
    {
        let a = account(&pool, "a");
        assert_eq!(a.rate_limit_strikes, 1);
        assert_eq!(a.status_code, "rate_limited");
        assert_eq!(a.rate_limited_until, (NOW + 604 * SECOND) as u128);
    }
    assert!(pool.acquire(None, &ex, NOW + 604 * SECOND - 1, 0).is_none());
    assert!(pool.acquire(None, &ex, NOW + 604 * SECOND, 0).is_some());
    pool.mark_rate_limited("a", 0, NOW);
    assert_eq!(account(&pool, "a").rate_limited_until, (NOW + 1200 * SECOND) as u128);
    pool.mark_success("a", NOW);
    let a = account(&pool, "a");
    assert_eq!(a.rate_limited_until, 0);
    assert_eq!(a.rate_limit_strikes, 0);
    assert_eq!(a.status_code, "valid");
    assert!(pool.acquire(None, &ex, NOW, 0).is_some());
}

#[test]
fn empty_reason_counts_as_auth_error_but_ends_at_once() {
    let mut pool = test_pool(vec![mk("a", true, 0, 0, 0, 0)], true, 0, 2);
    pool.auth_error_threshold = 3;
    pool.mark_invalid("a", "", "", NOW);
    let a = account(&pool, "a");
    assert_eq!(a.status_code, "auth_error");
    assert_eq!(a.last_error, "");
    assert!(!a.valid);
}

#[test]
fn success_forgives_earlier_failures() {
    let mut pool = test_pool(vec![mk("a", true, 0, 0, 0, 0)], true, 0, 2);
    pool.auth_error_threshold = 2;
    pool.mark_invalid("a", "auth_error", "x", NOW);
    pool.mark_success("a", NOW);
    pool.mark_invalid("a", "auth_error", "x", NOW);
    assert!(account(&pool, "a").valid);
    pool.mark_invalid("a", "auth_error", "x", NOW);
    assert!(!account(&pool, "a").valid);
    pool.mark_success("a", NOW);
    assert_eq!(account(&pool, "a").status_code, "auth_error");
}

#[test]
fn verify_without_success_counts_a_failure() {
    let mut pool = test_pool(vec![mk("a", true, 0, 0, 0, 0)], true, 0, 2);
    pool.apply_verify("a", false, "banned", "gone", NOW);
    let a = account(&pool, "a");
    assert!(!a.valid);
    assert_eq!(a.status_code, "banned");
    assert_eq!(a.last_error, "gone");
    assert_eq!(a.consecutive_failures, 1);
}

#[test]
fn add_replaces_and_remove_takes_out() {
    for use_index in [true, false] {
        let mut pool = test_pool(vec![mk("a", true, 0, 0, 0, 0)], use_index, 0, 2);
        pool.add(mk("b", true, 0, 0, 0, 0), NOW);
        assert_eq!(pool.count(), 2);
        assert_eq!(pool.concurrency_config(), (2, 4, 4));
        let mut again = mk("a", true, 0, 0, 0, 0);
        again.token = "fresh".to_string();
        pool.add(again, NOW);
        assert_eq!(pool.count(), 2);
        assert_eq!(pool.token_of("a"), Some("fresh".to_string()));
        pool.remove("a", NOW);
        assert_eq!(pool.count(), 1);
        assert_eq!(pool.token_of("a"), None);
        assert_eq!(pool.token_of("b"), Some("tok-b".to_string()));
        let names: Vec<String> = pool.list().into_iter().map(|a| a.email).collect();
        assert_eq!(names, vec!["b".to_string()]);
    }
}

#[test]
fn usable_accounts_are_healthy_and_have_a_token() {
    let mut bare = mk("bare", true, 0, 0, 0, 0);
    bare.token = String::new();
    let accounts = vec![
        mk("dead", false, 0, 0, 0, 0),
        bare,
        mk("resting", true, 0, NOW + 1, 0, 0),
        mk("one", true, 0, NOW, 0, 0),
        mk("two", true, 0, 0, 0, 0),
    ];
    let pool = test_pool(accounts, true, 0, 2);
    assert_eq!(pool.any_valid_account(NOW), Some(("one".to_string(), "tok-one".to_string())));
    assert_eq!(pool.any_valid_token(NOW), Some("tok-one".to_string()));
    let all = pool.all_emails_tokens(NOW);
    assert_eq!(
        all,
        vec![
            ("one".to_string(), "tok-one".to_string()),
            ("two".to_string(), "tok-two".to_string()),
        ]
    );
    let empty = test_pool(vec![], true, 0, 2);
    assert_eq!(empty.any_valid_account(NOW), None);
    assert_eq!(empty.any_valid_token(NOW), None);
}

#[test]
fn status_counts_every_account_once() {
    let accounts = vec![
        mk("a", true, 1, 0, 0, 0),
        mk("b", false, 0, NOW + 1, 0, 0),
        mk("c", false, 2, 0, 0, 0),
    ];
    let pool = test_pool(accounts, true, 0, 2);
    let s = pool.status(NOW);
    assert_eq!((s.total, s.valid, s.rate_limited, s.invalid), (3, 1, 1, 1));
    assert_eq!(s.in_use, 3);
    assert_eq!(s.global_in_use, 0);
    assert_eq!(s.waiting, 0);
    assert_eq!((s.max_inflight_per_account, s.max_queue_size, s.global_max_inflight), (2, 2, 2));
}

#[test]
fn report_lists_notable_accounts_up_to_a_limit() {
    let accounts = vec![mk("idle", true, 0, 0, 0, 0), mk("busy", true, 1, 0, 0, 9)];
    let pool = test_pool(accounts, true, 0, 2);
    let lines = pool.per_account_status(NOW);
    assert_eq!(lines.len(), 1);
    assert_eq!(lines[0].email, "busy");
    assert_eq!(lines[0].max_inflight, 2);
    assert_eq!(lines[0].last_request_finished, 9);
    let many: Vec<Account> = (0..600).map(|i| mk(&format!("m{i}"), false, 0, 0, 0, 0)).collect();
    let pool = test_pool(many, true, 0, 2);
    let lines = pool.per_account_status(NOW);
    assert_eq!(lines.len(), 500);
    assert_eq!(lines[499].email, "m499");
}

#[test]
fn waiting_joins_sleeps_and_times_out() {
    let mut pool = test_pool(vec![mk("a", true, 0, 0, 0, 0)], true, 0, 1);
    let ex = EmailSet::new();
    let start = WaitPhase::Start { timeout: 2 * SECOND };
    assert!(matches!(pool.acquire_wait(None, &ex, start, NOW, 0), WaitStep::Acquired(_)));
    let deadline = match pool.acquire_wait(None, &ex, start, NOW, 0) {
        WaitStep::Joined { deadline } => deadline,
        _ => panic!("should join"),
    };
    assert_eq!(deadline, (NOW + 2 * SECOND) as u128);
    assert_eq!(pool.waiting, 1);
    // The queue holds one.
    assert!(matches!(pool.acquire_wait(None, &ex, start, NOW, 0), WaitStep::Refused));
    let queued = WaitPhase::Queued { deadline };
    match pool.acquire_wait(None, &ex, queued, NOW, 0) {
        WaitStep::Sleep { micros } => assert_eq!(micros, 500_000),
        _ => panic!("should sleep"),
    }
    match pool.acquire_wait(None, &ex, queued, NOW + 2 * SECOND - 7, 0) {
        WaitStep::Sleep { micros } => assert_eq!(micros, 7),
        _ => panic!("should sleep"),
    }
    assert!(matches!(
        pool.acquire_wait(None, &ex, queued, NOW + 2 * SECOND, 0),
        WaitStep::TimedOut
    ));
    pool.release("a", NOW);
    assert!(matches!(pool.acquire_wait(None, &ex, queued, NOW, 0), WaitStep::Acquired(_)));
    pool.leave_queue();
    assert_eq!(pool.waiting, 0);
}

#[test]
fn closed_queue_refuses() {
    let mut pool = test_pool(vec![], true, 0, 1);
    let ex = EmailSet::new();
    let start = WaitPhase::Start { timeout: SECOND };
    assert!(matches!(pool.acquire_wait(None, &ex, start, NOW, 0), WaitStep::Refused));
    assert_eq!(pool.waiting, 0);
}

#[test]
fn unknown_accounts_change_nothing() {
    let mut pool = test_pool(vec![mk("a", true, 1, 0, 0, 0)], true, 0, 2);
    pool.state.global_in_use = 5;
    pool.mark_success("z", NOW);
    pool.mark_rate_limited("z", 0, NOW);
    pool.mark_invalid("z", "auth_error", "x", NOW);
    pool.apply_verify("z", false, "x", "y", NOW);
    assert_eq!(account(&pool, "a").inflight, 1);
    assert!(account(&pool, "a").valid);
    pool.release("z", NOW);
    assert_eq!(pool.state.global_in_use, 4);
}

#[test]
fn email_set_holds_each_address_once() {
    let mut s = EmailSet::new();
    assert!(s.insert("a".to_string()));
    assert!(!s.insert("a".to_string()));
    assert!(s.contains("a"));
    assert!(!s.contains("b"));
    let t = s.clone();
    assert!(t.contains("a"));
}

#[test]
fn remove_undoes_add() {
    let mut pool = test_pool(vec![mk("a", true, 0, 0, 0, 0)], true, 0, 2);
    pool.add(mk("b", true, 0, 0, 0, 0), NOW);
    pool.remove("b", NOW);
    let names: Vec<String> = pool.list().into_iter().map(|a| a.email).collect();
    assert_eq!(names, vec!["a".to_string()]);
    check_consistency(&pool, 0, NOW);
}

#[test]
fn least_loaded_comes_first_until_all_are_full() {
    let accounts = vec![mk("a", true, 0, 0, 0, 0), mk("b", true, 0, 0, 0, 0)];
    let mut pool = test_pool(accounts, true, 0, 2);
    let ex = EmailSet::new();
    let mut taken = Vec::new();
    for i in 0..4 {
        taken.push(pool.acquire(None, &ex, NOW + i, 0).unwrap().email);
    }
    assert_eq!(taken, vec!["a", "b", "a", "b"]);
    assert!(pool.acquire(None, &ex, NOW + 4, 0).is_none());
}

#[test]
fn overtaken_entries_do_not_win() {
    let ex = EmailSet::new();
    let idle = || vec![mk("a", true, 0, 0, 0, 0), mk("b", true, 0, 0, 0, 0)];

    let mut pool = test_pool(idle(), true, 0, 3);
    assert_eq!(pool.acquire(Some("a"), &ex, NOW, 0).unwrap().email, "a");
    assert_eq!(pool.acquire(None, &ex, NOW + 1, 0).unwrap().email, "b");

    let mut pool = test_pool(idle(), true, 0, 3);
    pool.mark_success("a", NOW);
    let first = pool.acquire(None, &ex, NOW + 1, 0).unwrap().email;
    let second = pool.acquire(None, &ex, NOW + 2, 0).unwrap().email;
    assert_eq!((first.as_str(), second.as_str()), ("a", "b"));
}

#[test]
fn index_and_scan_take_the_least_loaded_under_random_operations() {
    for use_index in [true, false] {
        let mut rng = rand::rngs::StdRng::seed_from_u64(7);
        let accounts: Vec<Account> =
            (0..6).map(|i| mk(&format!("acc{i}"), true, 0, 0, 0, 0)).collect();
        let mut pool = test_pool(accounts, use_index, 0, 4);
        let ex = EmailSet::new();
        let mut held: Vec<String> = Vec::new();
        for step in 0..3000u64 {
            let now = NOW + step;
            let e = format!("acc{}", rng.gen_range(0..6));
            match rng.gen_range(0..5) {
                0 => {
                    let least = pool.state.accounts.iter().map(|a| a.inflight).min().unwrap();
                    if let Some(h) = pool.acquire(None, &ex, now, 0) {
                        assert_eq!(account(&pool, &h.email).inflight, least + 1);
                        held.push(h.email);
                    }
                }
                1 => {
                    if let Some(h) = pool.acquire(Some(&e), &ex, now, 0) {
                        held.push(h.email);
                    }
                }
                2 => pool.mark_success(&e, now),
                _ => {
                    if !held.is_empty() {
                        let i = rng.gen_range(0..held.len());
                        let e = held.swap_remove(i);
                        pool.release(&e, now);
                    }
                }
            }
        }
    }
}

#[test]
fn surplus_release_stops_at_zero() {
    for use_index in [true, false] {
        let accounts = vec![mk("a", true, 0, 0, 0, 0), mk("b", true, 1, 0, 0, 0)];
        let mut pool = test_pool(accounts, use_index, 0, 2);
        pool.release("a", NOW);
        assert_eq!(account(&pool, "a").inflight, 0);
        assert_eq!(account(&pool, "b").inflight, 1);
        assert_eq!(pool.state.global_in_use, 0);
    }
}

#[test]
fn removal_forgets_one_token_and_keeps_the_others() {
    for use_index in [true, false] {
        let mut again = mk("b", true, 0, 0, 0, 0);
        again.token = "second".to_string();
        let accounts = vec![
            mk("a", true, 0, 0, 0, 0),
            mk("b", true, 0, 0, 0, 0),
            mk("c", true, 0, 0, 0, 0),
            again,
        ];
        let mut pool = test_pool(accounts, use_index, 0, 2);
        let b = if use_index { "second" } else { "tok-b" };
        assert_eq!(pool.token_of("b").as_deref(), Some(b));
        pool.remove("a", NOW);
        assert_eq!(pool.token_of("a"), None);
        assert_eq!(pool.token_of("b").as_deref(), Some(b));
        assert_eq!(pool.token_of("c").as_deref(), Some("tok-c"));
        pool.remove("a", NOW);
        assert_eq!(pool.count(), 3);
    }
}
