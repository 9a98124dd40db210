use rl_stats_overlay::session::Session;

#[test]
fn wins_and_losses_drive_the_streak() {
    let mut s = Session::default();
    s.record_win_at(10);
    s.record_win_at(11);
    assert_eq!((s.wins, s.streak, s.best_win_streak, s.last_update), (2, 2, 2, 11));
    s.record_loss_at(12);
    assert_eq!((s.losses, s.streak, s.best_loss_streak), (1, -1, 1));
    s.record_loss_at(13);
    s.record_loss_at(14);
    assert_eq!((s.streak, s.best_loss_streak, s.best_win_streak), (-3, 3, 2));
    s.record_win_at(15);
    assert_eq!((s.streak, s.best_win_streak), (1, 2));
}

#[test]
fn reset_clears_everything_but_the_stamp() {
    let mut s = Session { wins: 3, losses: 2, streak: -1, best_win_streak: 2, best_loss_streak: 1, last_update: 4 };
    s.reset_at(99);
    assert_eq!(s, Session { wins: 0, losses: 0, streak: 0, best_win_streak: 0, best_loss_streak: 0, last_update: 99 });
    s.record_win();
    assert_eq!((s.wins, s.streak), (1, 1));
}

#[test]
fn sessions_expire_after_six_idle_hours() {
    let six_h = Session::TIMEOUT_MS;
    assert_eq!(six_h, 21_600_000);
    let mut untouched = Session::default();
    assert!(!untouched.expire_if_stale_at(500));
    assert_eq!(untouched.last_update, 500);

    let mut s = Session { wins: 3, losses: 1, streak: 2, best_win_streak: 2, best_loss_streak: 1, last_update: 1000 };
    assert!(!s.expire_if_stale_at(1000 + six_h - 1));
    assert_eq!(s.wins, 3);
    assert!(s.expire_if_stale_at(1000 + six_h));
    assert_eq!((s.wins, s.losses, s.streak, s.last_update), (0, 0, 0, 1000 + six_h));
    // Checking again right away finds the session fresh.
    assert!(!s.expire_if_stale_at(1000 + six_h));
    // A clock running behind never expires a session.
    let mut t = Session { wins: 1, losses: 0, streak: 1, best_win_streak: 1, best_loss_streak: 0, last_update: 5000 };
    assert!(!t.expire_if_stale_at(10));
    assert_eq!(t.wins, 1);
}
