//! Live match statistics shared between the Stats API decoder and the UI.

use vstd::prelude::*;

verus! {

/// Per-player stats decoded from each `UpdateState` tick. Missing fields
/// default to zero so a partial payload never poisons the rendered UI.
#[derive(Debug, Clone, Default, PartialEq, Eq)]
pub struct PlayerStats {
    pub primary_id: String,
    pub name: String,
    pub team_num: u8,
    pub goals: u32,
    pub saves: u32,
    pub shots: u32,
    pub assists: u32,
    pub score: u32,
}

/// Snapshot of the live match (per-player + per-team), refreshed on every
/// `UpdateState` tick and reset between matches.
#[derive(Debug, Clone, Default, PartialEq, Eq)]
pub struct MatchStats {
    /// One entry per player currently in the match.
    pub players: Vec<PlayerStats>,
    /// `[blue, orange]` team scores from `Game.Teams[].Score`.
    pub team_scores: [u32; 2],
    /// Seconds remaining on the match clock (`Game.TimeSeconds`).
    pub time_seconds: u32,
    /// True when `Game.bOvertime` is set.
    pub overtime: bool,
}

} // verus!
