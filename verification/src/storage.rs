//! Match-history rules that do not need the database: the streaks over a
//! run of outcomes and the rotation rule for the active history session.

use vstd::prelude::*;
use crate::session::Session;

verus! {

/// Compact row used in the history list view.
#[derive(Debug, Clone, PartialEq, Eq)]
pub struct MatchSummary {
    pub match_guid: String,
    pub primary_id: String,
    pub ended_at_ms: i64,
    pub started_at_ms: i64,
    pub arena: Option<String>,
    pub team_size: u8,
    pub blue_score: u32,
    pub orange_score: u32,
    pub local_team_num: u8,
    pub is_win: bool,
    pub overtime: bool,
    pub duration_seconds: u32,
}

/// A player profile known to the history.
#[derive(Debug, Clone, PartialEq, Eq)]
pub struct ProfileInfo {
    pub primary_id: String,
    pub display_name: String,
    pub first_seen_at_ms: i64,
    pub last_seen_at_ms: i64,
    pub match_count: u64,
}

/// Per-team-size breakdown of a session or lifetime aggregate.
#[derive(Debug, Clone, Copy, PartialEq, Eq)]
pub struct PlaylistBreakdown {
    pub team_size: u8,
    pub wins: u32,
    pub losses: u32,
}

/// One entry of the statfeed log of a match.
#[derive(Debug, Clone, PartialEq, Eq)]
pub struct StatfeedRecord {
    pub ord: u32,
    pub at_seconds_remaining: Option<i32>,
    pub event_name: String,
    pub type_label: Option<String>,
    pub main_player: Option<String>,
    pub main_team_num: Option<u8>,
    pub secondary_player: Option<String>,
    pub secondary_team_num: Option<u8>,
}

/// Runs over `outcomes` (oldest first, `true` = win): the current win run,
/// the current loss run, the longest win run and the longest loss run.
pub open spec fn runs(outcomes: Seq<bool>) -> (int, int, int, int)
    decreases outcomes.len(),
{
    if outcomes.len() == 0 {
        (0, 0, 0, 0)
    } else {
        let (rw, rl, bw, bl) = runs(outcomes.drop_last());
        if outcomes.last() {
            (rw + 1, 0, if rw + 1 > bw { rw + 1 } else { bw }, bl)
        } else {
            (0, rl + 1, bw, if rl + 1 > bl { rl + 1 } else { bl })
        }
    }
}

/// `(current streak, best win streak, best loss streak)` of a chronological
/// list of outcomes: the current streak is the length of the final run,
/// positive for wins and negative for losses; all zero for no outcome.
pub open spec fn streaks(outcomes: Seq<bool>) -> (int, int, int) {
    if outcomes.len() == 0 {
        (0, 0, 0)
    } else {
        let (rw, rl, bw, bl) = runs(outcomes);
        (if outcomes.last() { rw } else { -rl }, bw, bl)
    }
}

proof fn lemma_runs_bounded(outcomes: Seq<bool>)
    ensures
        ({
            let (rw, rl, bw, bl) = runs(outcomes);
            &&& 0 <= rw <= bw <= outcomes.len()
            &&& 0 <= rl <= bl <= outcomes.len()
            &&& (rw == 0 || rl == 0)
            &&& outcomes.len() > 0 ==> (outcomes.last() ==> rw > 0) && (!outcomes.last() ==> rl > 0)
        }),
    decreases outcomes.len(),
{
    if outcomes.len() > 0 {
        lemma_runs_bounded(outcomes.drop_last());
    }
}

/// Streaks of a chronological list of outcomes (oldest first).
pub fn compute_streaks(outcomes: &[bool]) -> (r: (i32, u32, u32))
    requires
        outcomes@.len() <= i32::MAX,
    ensures
        (r.0 as int, r.1 as int, r.2 as int) == streaks(outcomes@),
{
    if outcomes.len() == 0 {
        return (0, 0, 0);
    }
    let mut best_win: u32 = 0;
    let mut best_loss: u32 = 0;
    let mut run_win: u32 = 0;
    let mut run_loss: u32 = 0;
    let mut i: usize = 0;
    while i < outcomes.len()
        invariant
            i <= outcomes@.len() <= i32::MAX,
            (run_win as int, run_loss as int, best_win as int, best_loss as int)
                == runs(outcomes@.take(i as int)),
        decreases outcomes@.len() - i,
    {
        proof {
            lemma_runs_bounded(outcomes@.take(i as int));
            assert(outcomes@.take(i + 1).drop_last() =~= outcomes@.take(i as int));
        }
        if outcomes[i] {
            run_win += 1;
            run_loss = 0;
            if run_win > best_win {
                best_win = run_win;
            }
        } else {
            run_loss += 1;
            run_win = 0;
            if run_loss > best_loss {
                best_loss = run_loss;
            }
        }
        i += 1;
    }
    proof {
        assert(outcomes@.take(outcomes@.len() as int) =~= outcomes@);
        lemma_runs_bounded(outcomes@);
    }
    let current = if outcomes[outcomes.len() - 1] {
        run_win as i32
    } else {
        -(run_loss as i32)
    };
    (current, best_win, best_loss)
}

/// The session that replaying `outcomes` (oldest first) onto a fresh session
/// produces, one `record_win` / `record_loss` per outcome.
pub open spec fn replay(outcomes: Seq<bool>) -> Session
    decreases outcomes.len(),
{
    if outcomes.len() == 0 {
        Session::zeroed(0)
    } else {
        let s = replay(outcomes.drop_last());
        if outcomes.last() { s.after_win(0) } else { s.after_loss(0) }
    }
}

/// The number of `true` entries of `outcomes`.
pub open spec fn count_wins(outcomes: Seq<bool>) -> int
    decreases outcomes.len(),
{
    if outcomes.len() == 0 {
        0
    } else {
        count_wins(outcomes.drop_last()) + if outcomes.last() { 1int } else { 0int }
    }
}

/// Streaks agree across the two places that keep them: replaying a run of
/// outcomes onto a fresh live session with `record_win` / `record_loss`
/// leaves the same current streak, best win streak and best loss streak as
/// `compute_streaks` reports for that run from history, and the win and loss
/// counters count the outcomes.
pub proof fn lemma_replay_matches_streaks(outcomes: Seq<bool>)
    requires
        outcomes.len() <= i32::MAX,
    ensures
        replay(outcomes).streak as int == streaks(outcomes).0,
        replay(outcomes).best_win_streak as int == streaks(outcomes).1,
        replay(outcomes).best_loss_streak as int == streaks(outcomes).2,
        replay(outcomes).wins as int == count_wins(outcomes),
        replay(outcomes).losses as int == outcomes.len() - count_wins(outcomes),
    decreases outcomes.len(),
{
    lemma_replay_runs(outcomes);
}

proof fn lemma_count_wins_bounded(outcomes: Seq<bool>)
    ensures
        0 <= count_wins(outcomes) <= outcomes.len(),
    decreases outcomes.len(),
{
    if outcomes.len() > 0 {
        lemma_count_wins_bounded(outcomes.drop_last());
    }
}

proof fn lemma_replay_runs(outcomes: Seq<bool>)
    requires
        outcomes.len() <= i32::MAX,
    ensures
        ({
            let (rw, rl, bw, bl) = runs(outcomes);
            let s = replay(outcomes);
            &&& s.streak as int == rw - rl
            &&& s.best_win_streak as int == bw
            &&& s.best_loss_streak as int == bl
            &&& s.wins as int == count_wins(outcomes)
            &&& s.losses as int == outcomes.len() - count_wins(outcomes)
        }),
    decreases outcomes.len(),
{
    lemma_runs_bounded(outcomes);
    lemma_count_wins_bounded(outcomes);
    if outcomes.len() > 0 {
        let prefix = outcomes.drop_last();
        lemma_replay_runs(prefix);
        lemma_runs_bounded(prefix);
        lemma_count_wins_bounded(prefix);
    }
}

/// Whether the open history session stays active at `now`: its last activity
/// (the latest match end in it, never earlier than its start) is less than
/// the live-session timeout in the past.
pub open spec fn session_is_fresh(now: i64, started_at: i64, last_match_ended: Option<i64>) -> bool {
    let last = match last_match_ended {
        Some(e) => if e > started_at { e } else { started_at },
        None => started_at,
    };
    let idle = if now - last > 0 { now - last } else { 0 };
    idle < Session::TIMEOUT_MS
}

/// Decide whether the open history session (started at `started_at`, whose
/// latest match ended at `last_match_ended`) is still the active one at `now`,
/// or must be closed and replaced by a fresh one.
pub fn keep_active_session(now: i64, started_at: i64, last_match_ended: Option<i64>) -> (keep: bool)
    ensures
        keep == session_is_fresh(now, started_at, last_match_ended),
{
    let last_activity: i64 = match last_match_ended {
        Some(e) => if e > started_at { e } else { started_at },
        None => started_at,
    };
    let timeout: i64 = 1000 * 60 * 60 * 6;
    let idle: i128 = now as i128 - last_activity as i128;
    let idle: i128 = if idle > 0 { idle } else { 0 };
    idle < timeout as i128
}

/// Boot-time reconciliation of the live tally with the match history, which
/// is the canonical record: when the history holds strictly more results
/// (`wins + losses` of the active history session, `outcomes` oldest first),
/// its totals are adopted, the current streak is recomputed from it, and the
/// best streaks are raised to its runs; otherwise nothing changes. The tally
/// is only ever reconciled upward.
pub fn reconcile_with_history(session: &mut Session, wins: u32, losses: u32, outcomes: &[bool]) -> (adopted: bool)
    requires
        outcomes@.len() <= i32::MAX,
        old(session).wins + old(session).losses <= u32::MAX,
        wins + losses <= u32::MAX,
    ensures
        adopted == (wins + losses > old(session).wins + old(session).losses),
        !adopted ==> *final(session) == *old(session),
        adopted ==> final(session).wins == wins && final(session).losses == losses,
        adopted ==> final(session).streak as int == streaks(outcomes@).0,
        adopted ==> final(session).best_win_streak as int == if streaks(outcomes@).1 > old(session).best_win_streak {
            streaks(outcomes@).1
        } else {
            old(session).best_win_streak as int
        },
        adopted ==> final(session).best_loss_streak as int == if streaks(outcomes@).2 > old(session).best_loss_streak {
            streaks(outcomes@).2
        } else {
            old(session).best_loss_streak as int
        },
        adopted ==> final(session).last_update == old(session).last_update,
        final(session).wins + final(session).losses >= old(session).wins + old(session).losses,
        final(session).best_win_streak >= old(session).best_win_streak,
        final(session).best_loss_streak >= old(session).best_loss_streak,
{
    let prev_total = session.wins + session.losses;
    let history_total = wins + losses;
    if history_total <= prev_total {
        return false;
    }
    let (current, best_win, best_loss) = compute_streaks(outcomes);
    session.wins = wins;
    session.losses = losses;
    session.streak = current;
    if best_win > session.best_win_streak {
        session.best_win_streak = best_win;
    }
    if best_loss > session.best_loss_streak {
        session.best_loss_streak = best_loss;
    }
    true
}

} // verus!
