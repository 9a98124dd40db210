use rl_stats_overlay::session::Session;
use rl_stats_overlay::storage::{compute_streaks, keep_active_session, reconcile_with_history};

#[test]
fn streaks_compute_correctly() {
    // Oldest first: W L L L W W → ends on +2 streak, best_loss=3, best_win=2.
    let outcomes = vec![true, false, false, false, true, true];
    let (cur, best_w, best_l) = compute_streaks(&outcomes);
    assert_eq!(cur, 2);
    assert_eq!(best_w, 2);
    assert_eq!(best_l, 3);
}

#[test]
fn streaks_of_no_outcome_and_of_a_loss_run() {
    assert_eq!(compute_streaks(&[]), (0, 0, 0));
    assert_eq!(compute_streaks(&[true, true, false, false, false]), (-3, 2, 3));
}

#[test]
fn replaying_outcomes_matches_history_streaks() {
    let outcomes = vec![true, false, false, false, true, true];
    let mut s = Session::default();
    for &won in &outcomes {
        if won {
            s.record_win_at(1);
        } else {
            s.record_loss_at(1);
        }
    }
    let (cur, best_w, best_l) = compute_streaks(&outcomes);
    assert_eq!((s.streak, s.best_win_streak, s.best_loss_streak), (cur, best_w, best_l));
    assert_eq!((s.wins, s.losses), (3, 3));
}

#[test]
fn history_session_rotates_after_six_idle_hours() {
    let six_h: i64 = 6 * 60 * 60 * 1000;
    assert!(keep_active_session(1_000 + six_h - 1, 1_000, None));
    assert!(!keep_active_session(1_000 + six_h, 1_000, None));
    // A recent match keeps an old session alive.
    assert!(keep_active_session(1_000 + six_h + 10, 1_000, Some(1_000 + six_h)));
    // A match dated before the start counts as the start.
    assert!(!keep_active_session(1_000 + six_h, 1_000, Some(0)));
    // A clock behind the session never expires it.
    assert!(keep_active_session(0, 1_000, None));
}

#[test]
fn reconcile_adopts_history_only_when_ahead() {
    let mut s = Session { wins: 1, losses: 0, streak: 1, best_win_streak: 4, best_loss_streak: 0, last_update: 7 };
    assert!(!reconcile_with_history(&mut s, 1, 0, &[true]));
    assert_eq!(s.wins, 1);
    assert!(reconcile_with_history(&mut s, 1, 2, &[true, false, false]));
    assert_eq!((s.wins, s.losses, s.streak), (1, 2, -2));
    assert_eq!((s.best_win_streak, s.best_loss_streak), (4, 2));
    assert_eq!(s.last_update, 7);
}
