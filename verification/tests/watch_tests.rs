use multiroblox::cache::{TokenCache, CSRF_TTL_MS, TICKET_TTL_MS};
use multiroblox::watch::{WatchState, LAUNCH_DELAY_MS, MISS_THRESHOLD};

#[test]
fn grace_window_spares_new_launches() {
    let mut w = WatchState::new();
    w.watch("a", 1000);
    w.track_pid("a", 10);
    for k in 0..10 {
        let closed = w.tick(&vec![], 1000 + k * 1000);
        assert!(closed.is_empty());
    }
    assert_eq!(w.launching_pids(1000), vec![10]);
    assert_eq!(w.launching_pids(1000 + LAUNCH_DELAY_MS), Vec::<u32>::new());
}

#[test]
fn live_account_is_kept() {
    let mut w = WatchState::new();
    w.watch("a", 0);
    w.track_pid("a", 10);
    let t = LAUNCH_DELAY_MS + 1;
    for _ in 0..20 {
        assert!(w.tick(&vec![10, 11], t).is_empty());
    }
    assert_eq!(w.watched_ids(), vec!["a".to_string()]);
}

#[test]
fn closes_exactly_at_threshold() {
    let mut w = WatchState::new();
    w.watch("a", 0);
    w.track_pid("a", 10);
    let t = LAUNCH_DELAY_MS;
    for _ in 0..(MISS_THRESHOLD - 1) {
        assert!(w.tick(&vec![], t).is_empty());
    }
    assert_eq!(w.tick(&vec![], t), vec!["a".to_string()]);
    assert!(w.is_idle());
    assert_eq!(w.pid("a"), None);
}

#[test]
fn a_live_check_resets_misses() {
    let mut w = WatchState::new();
    w.watch("a", 0);
    w.track_pid("a", 10);
    let t = LAUNCH_DELAY_MS;
    for _ in 0..(MISS_THRESHOLD - 1) {
        assert!(w.tick(&vec![], t).is_empty());
    }
    assert!(w.tick(&vec![10], t).is_empty());
    for _ in 0..(MISS_THRESHOLD - 1) {
        assert!(w.tick(&vec![], t).is_empty());
    }
    assert_eq!(w.tick(&vec![], t), vec!["a".to_string()]);
}

#[test]
fn restarted_client_is_adopted() {
    let mut w = WatchState::new();
    w.watch("a", 0);
    w.track_pid("a", 10);
    w.watch("b", 0);
    w.track_pid("b", 20);
    assert!(w.tick(&vec![20, 30, 20], LAUNCH_DELAY_MS).is_empty());
    assert_eq!(w.pid("a"), Some(30));
    assert_eq!(w.pid("b"), Some(20));
}

#[test]
fn untracked_account_follows_any_client() {
    let mut w = WatchState::new();
    w.watch("a", 0);
    for _ in 0..20 {
        assert!(w.tick(&vec![5], LAUNCH_DELAY_MS).is_empty());
    }
    for _ in 0..(MISS_THRESHOLD - 1) {
        assert!(w.tick(&vec![], LAUNCH_DELAY_MS).is_empty());
    }
    assert_eq!(w.tick(&vec![], LAUNCH_DELAY_MS), vec!["a".to_string()]);
}

#[test]
fn forget_and_clear() {
    let mut w = WatchState::new();
    w.watch("a", 0);
    w.track_pid("a", 1);
    w.watch("b", 0);
    assert_eq!(w.forget("a"), Some(1));
    assert_eq!(w.forget("a"), None);
    assert_eq!(w.clear(), vec!["b".to_string()]);
    assert!(w.is_idle());
}

#[test]
fn tokens_expire() {
    let mut c = TokenCache::new();
    assert_eq!(c.fresh("cookie", 0, CSRF_TTL_MS), None);
    c.store("cookie", "tok", 1000);
    assert_eq!(c.fresh("cookie", 1000 + CSRF_TTL_MS - 1, CSRF_TTL_MS), Some("tok".to_string()));
    assert_eq!(c.fresh("cookie", 1000 + CSRF_TTL_MS, CSRF_TTL_MS), None);
    assert_eq!(c.fresh("other", 1000, CSRF_TTL_MS), None);
    c.store("other", "t2", 5);
    assert_eq!(c.fresh("cookie", 1000, TICKET_TTL_MS), Some("tok".to_string()));
    c.invalidate("cookie");
    assert_eq!(c.fresh("cookie", 1000, TICKET_TTL_MS), None);
    assert_eq!(c.fresh("other", 5, TICKET_TTL_MS), Some("t2".to_string()));
    assert_eq!(c.fresh("other", i64::MIN, TICKET_TTL_MS), Some("t2".to_string()));
}

#[test]
fn a_dead_client_with_nothing_to_adopt_counts_misses() {
    let mut w = WatchState::new();
    w.watch("a", 0);
    w.track_pid("a", 10);
    w.watch("b", 0);
    w.track_pid("b", 20);
    let t = LAUNCH_DELAY_MS;
    for _ in 0..5 {
        assert!(w.tick(&vec![20], t).is_empty());
    }
    assert_eq!(w.tick(&vec![20], t), vec!["a".to_string()]);
    assert_eq!(w.pid("a"), None);
    assert_eq!(w.pid("b"), Some(20));
    assert_eq!(w.watched_ids(), vec!["b".to_string()]);
}
