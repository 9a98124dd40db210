//! Live session tally: wins, losses and the running streak. Persisted by the
//! app so the numbers survive a restart, and expired after six idle hours.

use vstd::prelude::*;
use crate::clock::now_ms;

verus! {

/// Live, in-memory session state.
#[derive(Debug, Clone, Copy, PartialEq, Eq)]
pub struct Session {
    pub wins: u32,
    pub losses: u32,
    /// Positive = current win streak, negative = current loss streak.
    pub streak: i32,
    pub best_win_streak: u32,
    pub best_loss_streak: u32,
    /// Unix epoch ms of the last update — used to expire stale sessions.
    pub last_update: u64,
}

impl Session {
    /// Sessions older than this are dropped so the previous day's numbers
    /// don't leak into a new gaming session (six hours).
    pub const TIMEOUT_MS: u64 = 1000 * 60 * 60 * 6;

    /// A session with every counter at zero, last touched at `now`.
    pub open spec fn zeroed(now: u64) -> Session {
        Session {
            wins: 0,
            losses: 0,
            streak: 0,
            best_win_streak: 0,
            best_loss_streak: 0,
            last_update: now,
        }
    }

    /// The streak after one more win: extends a win streak, or starts a new one.
    pub open spec fn streak_after_win(streak: int) -> int {
        if streak >= 0 { streak + 1 } else { 1 }
    }

    /// The streak after one more loss: extends a loss streak, or starts a new one.
    pub open spec fn streak_after_loss(streak: int) -> int {
        if streak <= 0 { streak - 1 } else { -1 }
    }

    /// The session after a win recorded at `now`.
    pub open spec fn after_win(self, now: u64) -> Session {
        let st = Self::streak_after_win(self.streak as int);
        Session {
            wins: (self.wins + 1) as u32,
            losses: self.losses,
            streak: st as i32,
            best_win_streak: if st > self.best_win_streak { st as u32 } else { self.best_win_streak },
            best_loss_streak: self.best_loss_streak,
            last_update: now,
        }
    }

    /// The session after a loss recorded at `now`.
    pub open spec fn after_loss(self, now: u64) -> Session {
        let st = Self::streak_after_loss(self.streak as int);
        Session {
            wins: self.wins,
            losses: (self.losses + 1) as u32,
            streak: st as i32,
            best_win_streak: self.best_win_streak,
            best_loss_streak: if -st > self.best_loss_streak { (-st) as u32 } else { self.best_loss_streak },
            last_update: now,
        }
    }

    /// The best streaks never fall behind the current run.
    pub open spec fn wf(self) -> bool {
        &&& self.streak > 0 ==> self.best_win_streak >= self.streak
        &&& self.streak < 0 ==> self.best_loss_streak >= -self.streak
    }

    /// Whether a session last touched at `last_update` has expired at `now`
    /// (an untouched session, `last_update == 0`, never has).
    pub open spec fn is_stale(last_update: u64, now: u64) -> bool {
        last_update != 0 && now - last_update >= Self::TIMEOUT_MS
    }

    /// A fresh session, last touched at `now`.
    pub fn new_at(now: u64) -> (s: Session)
        ensures
            s == Self::zeroed(now),
    {
        Session { wins: 0, losses: 0, streak: 0, best_win_streak: 0, best_loss_streak: 0, last_update: now }
    }

    /// Record a win observed at `now`.
    pub fn record_win_at(&mut self, now: u64)
        requires
            old(self).wins < u32::MAX,
            old(self).streak < i32::MAX,
        ensures
            *final(self) == old(self).after_win(now),
            final(self).wf(),
            final(self).wins + final(self).losses == old(self).wins + old(self).losses + 1,
    {
        self.wins = self.wins + 1;
        self.streak = if self.streak >= 0 { self.streak + 1 } else { 1 };
        if self.streak > 0 && (self.streak as u32) > self.best_win_streak {
            self.best_win_streak = self.streak as u32;
        }
        self.last_update = now;
    }

    /// Record a win, stamped with the current time.
    pub fn record_win(&mut self)
        requires
            old(self).wins < u32::MAX,
            old(self).streak < i32::MAX,
        ensures
            *final(self) == old(self).after_win(final(self).last_update),
            final(self).wf(),
    {
        let now = now_ms();
        self.record_win_at(now);
    }

    /// Record a loss observed at `now`.
    pub fn record_loss_at(&mut self, now: u64)
        requires
            old(self).losses < u32::MAX,
            old(self).streak > i32::MIN,
        ensures
            *final(self) == old(self).after_loss(now),
            final(self).wf(),
            final(self).wins + final(self).losses == old(self).wins + old(self).losses + 1,
    {
        self.losses = self.losses + 1;
        self.streak = if self.streak <= 0 { self.streak - 1 } else { -1 };
        let loss_run: u32 = (0i64 - self.streak as i64) as u32;
        if self.streak < 0 && loss_run > self.best_loss_streak {
            self.best_loss_streak = loss_run;
        }
        self.last_update = now;
    }

    /// Record a loss, stamped with the current time.
    pub fn record_loss(&mut self)
        requires
            old(self).losses < u32::MAX,
            old(self).streak > i32::MIN,
        ensures
            *final(self) == old(self).after_loss(final(self).last_update),
            final(self).wf(),
    {
        let now = now_ms();
        self.record_loss_at(now);
    }

    /// Clear every counter; the session counts as touched at `now`.
    pub fn reset_at(&mut self, now: u64)
        ensures
            *final(self) == Self::zeroed(now),
    {
        *self = Self::new_at(now);
    }

    /// Clear every counter, stamped with the current time.
    pub fn reset(&mut self)
        ensures
            *final(self) == Self::zeroed(final(self).last_update),
    {
        let now = now_ms();
        self.reset_at(now);
    }

    /// At `now`: an untouched session is stamped and kept; a session idle for
    /// at least [`Self::TIMEOUT_MS`] is cleared (stamped `now`) and `true` is
    /// returned; any other session is left as it is.
    pub fn expire_if_stale_at(&mut self, now: u64) -> (expired: bool)
        ensures
            expired == Self::is_stale(old(self).last_update, now),
            expired ==> *final(self) == Self::zeroed(now),
            !expired && old(self).last_update == 0 ==> *final(self) == (Session { last_update: now, ..*old(self) }),
            !expired && old(self).last_update != 0 ==> *final(self) == *old(self),
    {
        if self.last_update == 0 {
            self.last_update = now;
            return false;
        }
        if now.saturating_sub(self.last_update) >= Self::TIMEOUT_MS {
            *self = Self::new_at(now);
            return true;
        }
        false
    }

    /// Return true and clear the session if it is older than [`Self::TIMEOUT_MS`],
    /// judged against the current time.
    pub fn expire_if_stale(&mut self) -> (expired: bool)
        ensures
            old(self).last_update == 0 ==> !expired,
            expired ==> Self::is_stale(old(self).last_update, final(self).last_update),
            expired ==> *final(self) == Self::zeroed(final(self).last_update),
            !expired && old(self).last_update != 0 ==> *final(self) == *old(self),
            !expired && old(self).last_update == 0 ==> *final(self) == (Session { last_update: final(self).last_update, ..*old(self) }),
    {
        let now = now_ms();
        self.expire_if_stale_at(now)
    }
}

impl Default for Session {
    fn default() -> (s: Self)
        ensures
            s == Session::zeroed(0),
    {
        Session::new_at(0)
    }
}

/// A session just reset or just expired at `now` (both leave
/// `Session::zeroed(now)`) is not stale at any instant less than the timeout
/// later: expiry is idempotent, and a reset session lasts its six hours.
pub proof fn lemma_fresh_session_is_not_stale(now: u64, later: u64)
    requires
        now <= later,
        later - now < Session::TIMEOUT_MS,
    ensures
        !Session::is_stale(Session::zeroed(now).last_update, later),
{
}

} // verus!
