//! Decisions of the Stats API client: reconnect jitter, decoding of
//! `UpdateState` ticks, recognising the local player, the identity it teaches
//! the settings, counting a finished match, and cutting the TCP byte stream
//! into JSON envelopes. The socket, the events to the UI and the shared state
//! are the app's part.

use vstd::prelude::*;
use crate::clock::subsec_nanos_now;
use crate::state::{MatchStats, PlayerStats};
use crate::session::Session;
use crate::stats_api::{GameTick, PlayerTick, TeamTick, str_or_empty};
use crate::text::{
    chars_eq, chars_eq_ignore_ascii_case, chars_of, chars_starts_with, copy_range, eq_ignore_ascii_case,
    starts_with, string_from_chars, trim, trim_range,
};

verus! {

// ---------- reconnect jitter --------------------------------------------------

/// Integer division truncating toward zero, as Rust's `/` on signed values.
pub open spec fn div_trunc(n: int, d: int) -> int {
    if n >= 0 { n / d } else { -((-n) / d) }
}

/// `base_ms` moved by `entropy % 41 - 20` percent (truncated toward zero),
/// never below zero.
pub open spec fn jitter_of(base_ms: u64, entropy: u64) -> int {
    let pct = (entropy % 41) as int - 20;
    let v = base_ms as int + div_trunc(base_ms as int * pct, 100);
    if v > 0 { v } else { 0 }
}

/// Apply ±20% jitter to `base_ms` from the given entropy.
pub fn jittered_with(base_ms: u64, entropy: u64) -> (r: u64)
    requires
        base_ms as int * 20 <= i64::MAX,
    ensures
        r == jitter_of(base_ms, entropy),
        r as int * 5 >= base_ms as int * 4,
        r as int * 5 <= base_ms as int * 6,
{
    let pct: i64 = (entropy % 41) as i64 - 20;
    let b: i64 = base_ms as i64;
    proof {
        assert(-20 <= pct <= 20);
        assert(-(b * 20) <= b * pct <= b * 20) by (nonlinear_arith)
            requires -20 <= pct <= 20, b >= 0;
    }
    let prod: i64 = b * pct;
    let delta: i64 = prod / 100;
    proof {
        assert(delta as int == div_trunc(prod as int, 100));
        assert(prod as int * 5 >= -(b as int) * 100 && prod as int * 5 <= b as int * 100) by (nonlinear_arith)
            requires -20 <= pct <= 20, b >= 0, prod == b * pct;
    }
    let v: i64 = b + delta;
    if v > 0 { v as u64 } else { 0 }
}

/// Apply ±20% jitter from a cheap pseudo-random source (the sub-second part
/// of the clock): the result is `jitter_of` for some sub-second reading, so
/// it stays within 80% to 120% of `base_ms`.
pub fn jittered(base_ms: u64) -> (r: u64)
    requires
        base_ms as int * 20 <= i64::MAX,
    ensures
        exists|entropy: u64| entropy < 1_000_000_000 && r == jitter_of(base_ms, entropy),
        r as int * 5 >= base_ms as int * 4,
        r as int * 5 <= base_ms as int * 6,
{
    let entropy = subsec_nanos_now();
    let r = jittered_with(base_ms, entropy);
    proof {
        assert(entropy < 1_000_000_000 && r == jitter_of(base_ms, entropy));
    }
    r
}

/// First reconnect delay after a failure (ms).
pub const RECONNECT_INITIAL_MS: u64 = 1000;
/// Ceiling of the reconnect backoff (ms).
pub const RECONNECT_MAX_MS: u64 = 10_000;
/// A connection that survived this long was stable (ms): its drop restarts
/// the backoff from the initial delay.
pub const STABLE_CONNECTION_MS: u64 = 5_000;

/// The backoff base to sleep on after a connection attempt ended: the
/// current delay, or the initial one when a connection was up for at least
/// [`STABLE_CONNECTION_MS`].
pub open spec fn backoff_base(delay_ms: u64, was_connected: bool, connected_for_ms: u64) -> u64 {
    if was_connected && connected_for_ms >= STABLE_CONNECTION_MS { RECONNECT_INITIAL_MS } else { delay_ms }
}

/// After an attempt ends: `(delay to sleep before jitter, next delay)`. The
/// next delay grows by half, capped at [`RECONNECT_MAX_MS`].
pub fn reconnect_backoff(delay_ms: u64, was_connected: bool, connected_for_ms: u64) -> (r: (u64, u64))
    requires
        delay_ms <= RECONNECT_MAX_MS,
    ensures
        r.0 == backoff_base(delay_ms, was_connected, connected_for_ms),
        r.1 == if r.0 * 3 / 2 < RECONNECT_MAX_MS { r.0 * 3 / 2 } else { RECONNECT_MAX_MS as int },
        r.1 <= RECONNECT_MAX_MS,
        r.0 >= RECONNECT_INITIAL_MS ==> r.1 >= RECONNECT_INITIAL_MS,
{
    let base = if was_connected && connected_for_ms >= 5000 { 1000 } else { delay_ms };
    let grown = base * 3 / 2;
    let next = if grown < 10_000 { grown } else { 10_000 };
    (base, next)
}

/// How long Rocket League must have been gone (ms) for the next connection to
/// start a fresh gaming session: 5 minutes absorbs crashes and restarts.
pub const RL_RELAUNCH_RESET_MS: u64 = 300_000;

/// Whether a connection made after Rocket League was gone this long starts
/// a fresh session.
pub fn relaunch_resets_session(disconnected_for_ms: u64) -> (r: bool)
    ensures
        r == (disconnected_for_ms >= RL_RELAUNCH_RESET_MS),
{
    disconnected_for_ms >= RL_RELAUNCH_RESET_MS
}

/// Minimum gap (ms) between two live-stats pushes to the frontend.
pub const MATCH_STATS_EMIT_DEBOUNCE_MS: u64 = 250;

/// Whether to push live stats now: always when forced (between-match
/// resets) or when nothing was pushed yet; otherwise only a payload that
/// differs from the last one pushed, and at most once per
/// [`MATCH_STATS_EMIT_DEBOUNCE_MS`]. `last_emit_at_ms` is when the last push
/// happened, `same_as_last` whether the payload equals it.
pub fn should_emit_match_stats(force: bool, last_emit_at_ms: Option<u64>, same_as_last: bool, now_ms: u64) -> (r: bool)
    ensures
        r == (force || match last_emit_at_ms {
            None => true,
            Some(t) => !same_as_last && now_ms >= t && now_ms - t >= MATCH_STATS_EMIT_DEBOUNCE_MS,
        }),
{
    if force {
        return true;
    }
    match last_emit_at_ms {
        None => true,
        Some(t) => {
            let elapsed = now_ms.saturating_sub(t);
            !same_as_last && elapsed >= MATCH_STATS_EMIT_DEBOUNCE_MS
        },
    }
}

/// What a Stats API event asks for, by its `Event` name.
#[derive(Debug, Clone, Copy, PartialEq, Eq)]
pub enum EventKind {
    UpdateState,
    MatchEnded,
    /// `MatchInitialized` or `MatchCreated`: clear the live stats and announce
    /// a new match.
    MatchStarted,
    /// `MatchDestroyed`: clear the live stats.
    MatchDestroyed,
    GoalScored,
    /// Anything else is ignored.
    Other,
}

pub open spec fn event_kind_of(name: Seq<char>) -> EventKind {
    if name == "UpdateState"@ {
        EventKind::UpdateState
    } else if name == "MatchEnded"@ {
        EventKind::MatchEnded
    } else if name == "MatchInitialized"@ || name == "MatchCreated"@ {
        EventKind::MatchStarted
    } else if name == "MatchDestroyed"@ {
        EventKind::MatchDestroyed
    } else if name == "GoalScored"@ {
        EventKind::GoalScored
    } else {
        EventKind::Other
    }
}

/// Classify an event by its exact `Event` name.
pub fn classify_event(name: &str) -> (k: EventKind)
    ensures
        k == event_kind_of(name@),
{
    let c = chars_of(name);
    let update = chars_of("UpdateState");
    let ended = chars_of("MatchEnded");
    let initialized = chars_of("MatchInitialized");
    let created = chars_of("MatchCreated");
    let destroyed = chars_of("MatchDestroyed");
    let goal = chars_of("GoalScored");
    if chars_eq(c.as_slice(), update.as_slice()) {
        EventKind::UpdateState
    } else if chars_eq(c.as_slice(), ended.as_slice()) {
        EventKind::MatchEnded
    } else if chars_eq(c.as_slice(), initialized.as_slice()) || chars_eq(c.as_slice(), created.as_slice()) {
        EventKind::MatchStarted
    } else if chars_eq(c.as_slice(), destroyed.as_slice()) {
        EventKind::MatchDestroyed
    } else if chars_eq(c.as_slice(), goal.as_slice()) {
        EventKind::GoalScored
    } else {
        EventKind::Other
    }
}

// ---------- UpdateState decoding ---------------------------------------------

/// A counter field: negative or missing values read as zero; larger values
/// are truncated to 32 bits.
pub open spec fn counter_of(v: Option<i64>) -> u32 {
    match v {
        Some(n) => if n < 0 { 0 } else { n as u32 },
        None => 0,
    }
}

/// Read a counter field: zero when missing or negative.
pub fn u32_or_zero(v: Option<i64>) -> (r: u32)
    ensures
        r == counter_of(v),
{
    match v {
        Some(n) => if n < 0 { 0 } else { n as u32 },
        None => 0,
    }
}

/// A team number field: its value when it fits in `u8`, else zero.
pub open spec fn team_num_of(v: Option<i64>) -> u8 {
    match v {
        Some(n) => if 0 <= n <= 255 { n as u8 } else { 0 },
        None => 0,
    }
}

/// How `parse_match_stats` renders one player.
pub open spec fn player_stats_of(s: PlayerStats, p: PlayerTick) -> bool {
    &&& s.primary_id@ == str_or_empty(p.primary_id)
    &&& s.name@ == str_or_empty(p.name)
    &&& s.team_num == team_num_of(p.team_num)
    &&& s.goals == counter_of(p.goals)
    &&& s.saves == counter_of(p.saves)
    &&& s.shots == counter_of(p.shots)
    &&& s.assists == counter_of(p.assists)
    &&& s.score == counter_of(p.score)
}

/// The score of team `idx`: from the last `Teams[]` entry numbered `idx`, or
/// zero when there is none.
pub open spec fn team_score(teams: Seq<TeamTick>, idx: i64) -> u32
    decreases teams.len(),
{
    if teams.len() == 0 {
        0
    } else if teams.last().team_num == Some(idx) {
        counter_of(teams.last().score)
    } else {
        team_score(teams.drop_last(), idx)
    }
}

fn clone_opt_string(o: &Option<String>) -> (r: String)
    ensures
        r@ == str_or_empty(*o),
{
    match o {
        Some(s) => s.clone(),
        None => String::new(),
    }
}

fn player_stats(p: &PlayerTick) -> (s: PlayerStats)
    ensures
        player_stats_of(s, *p),
{
    let team_num: u8 = match p.team_num {
        Some(n) => if 0 <= n && n <= 255 { n as u8 } else { 0 },
        None => 0,
    };
    PlayerStats {
        primary_id: clone_opt_string(&p.primary_id),
        name: clone_opt_string(&p.name),
        team_num,
        goals: u32_or_zero(p.goals),
        saves: u32_or_zero(p.saves),
        shots: u32_or_zero(p.shots),
        assists: u32_or_zero(p.assists),
        score: u32_or_zero(p.score),
    }
}

/// `stats` is the decoding of an `UpdateState` tick with these `Players[]`
/// and this `Game` block: one entry per player, in order; missing fields read
/// as zero; without a `Game` block the team scores, clock and overtime flag
/// are zero / false.
pub open spec fn match_stats_of(stats: MatchStats, players: Seq<PlayerTick>, game: Option<GameTick>) -> bool {
    &&& stats.players@.len() == players.len()
    &&& forall|i: int| 0 <= i < players.len() ==> player_stats_of(#[trigger] stats.players@[i], players[i])
    &&& match game {
        Some(g) => {
            &&& stats.team_scores[0] == match g.teams { Some(t) => team_score(t@, 0), None => 0 }
            &&& stats.team_scores[1] == match g.teams { Some(t) => team_score(t@, 1), None => 0 }
            &&& stats.time_seconds == counter_of(g.time_seconds)
            &&& stats.overtime == match g.overtime { Some(b) => b, None => false }
        },
        None => {
            &&& stats.team_scores[0] == 0 && stats.team_scores[1] == 0
            &&& stats.time_seconds == 0
            &&& !stats.overtime
        },
    }
}

/// Decode the per-player + per-team subset of an `UpdateState` payload.
/// Missing fields default to zero; without a `Game` block the team scores,
/// clock and overtime flag are zero / false.
pub fn parse_match_stats(players: &[PlayerTick], game: Option<&GameTick>) -> (stats: MatchStats)
    ensures
        match_stats_of(stats, players@, match game { Some(g) => Some(*g), None => None }),
{
    let mut out: Vec<PlayerStats> = Vec::new();
    let mut i: usize = 0;
    while i < players.len()
        invariant
            i <= players@.len(),
            out@.len() == i,
            forall|k: int| 0 <= k < i ==> player_stats_of(#[trigger] out@[k], players@[k]),
        decreases players@.len() - i,
    {
        out.push(player_stats(&players[i]));
        i += 1;
    }
    let mut blue: u32 = 0;
    let mut orange: u32 = 0;
    let mut time_seconds: u32 = 0;
    let mut overtime = false;
    match game {
        Some(g) => {
            match &g.teams {
                Some(teams) => {
                    let mut k: usize = 0;
                    while k < teams.len()
                        invariant
                            k <= teams@.len(),
                            blue == team_score(teams@.take(k as int), 0),
                            orange == team_score(teams@.take(k as int), 1),
                        decreases teams@.len() - k,
                    {
                        proof {
                            assert(teams@.take(k + 1).drop_last() =~= teams@.take(k as int));
                        }
                        let t = teams[k];
                        match t.team_num {
                            Some(idx) => {
                                if idx == 0 {
                                    blue = u32_or_zero(t.score);
                                } else if idx == 1 {
                                    orange = u32_or_zero(t.score);
                                }
                            },
                            None => {},
                        }
                        k += 1;
                    }
                    proof {
                        assert(teams@.take(teams@.len() as int) =~= teams@);
                    }
                },
                None => {},
            }
            time_seconds = u32_or_zero(g.time_seconds);
            overtime = match g.overtime {
                Some(b) => b,
                None => false,
            };
        },
        None => {},
    }
    MatchStats { players: out, team_scores: [blue, orange], time_seconds, overtime }
}

/// The number of players on team `t`.
pub open spec fn team_count(players: Seq<PlayerTick>, t: i64) -> nat
    decreases players.len(),
{
    if players.len() == 0 {
        0
    } else {
        team_count(players.drop_last(), t) + if players.last().team_num == Some(t) { 1nat } else { 0nat }
    }
}

/// A team's head count as a saturating 8-bit counter.
pub open spec fn capped_count(players: Seq<PlayerTick>, t: i64) -> int {
    if team_count(players, t) > 255 { 255 } else { team_count(players, t) as int }
}

/// The match shape: the largest head count among teams 0 to 3 (each capped
/// at 255); zero when no player carries one of those team numbers.
pub open spec fn team_size_of(players: Seq<PlayerTick>) -> int {
    let a = capped_count(players, 0);
    let b = capped_count(players, 1);
    let c = capped_count(players, 2);
    let d = capped_count(players, 3);
    let ab = if a > b { a } else { b };
    let cd = if c > d { c } else { d };
    if ab > cd { ab } else { cd }
}

/// The max players-per-team count among the up-to-4 teams seen in the
/// payload, a proxy for the match shape (1v1 / 2v2 / 3v3 / 4v4).
pub fn compute_team_size(players: &[PlayerTick]) -> (size: u8)
    ensures
        size as int == team_size_of(players@),
{
    let mut counts: [u8; 4] = [0u8; 4];
    let mut i: usize = 0;
    while i < players.len()
        invariant
            i <= players@.len(),
            forall|t: int| 0 <= t < 4 ==> counts[t] as int == capped_count(#[trigger] players@.take(i as int), t as i64),
        decreases players@.len() - i,
    {
        proof {
            assert(players@.take(i + 1).drop_last() =~= players@.take(i as int));
        }
        match players[i].team_num {
            Some(t) => {
                if 0 <= t && t < 4 {
                    let idx = t as usize;
                    counts[idx] = counts[idx].saturating_add(1);
                }
            },
            None => {},
        }
        proof {
            assert forall|t: int| 0 <= t < 4 implies counts[t] as int == capped_count(
                #[trigger] players@.take(i + 1),
                t as i64,
            ) by {
                assert(players@.take(i + 1).last() == players@[i as int]);
            }
        }
        i += 1;
    }
    proof {
        assert(players@.take(players@.len() as int) =~= players@);
    }
    let ab = if counts[0] > counts[1] { counts[0] } else { counts[1] };
    let cd = if counts[2] > counts[3] { counts[2] } else { counts[3] };
    if ab > cd { ab } else { cd }
}

proof fn lemma_team_count_uniform(players: Seq<PlayerTick>, t: i64, u: i64)
    requires
        forall|i: int| 0 <= i < players.len() ==> #[trigger] players[i].team_num == Some(t),
    ensures
        team_count(players, u) == if u == t { players.len() } else { 0 },
    decreases players.len(),
{
    if players.len() > 0 {
        let init = players.drop_last();
        assert forall|i: int| 0 <= i < init.len() implies #[trigger] init[i].team_num == Some(t) by {
            assert(init[i] == players[i]);
        }
        lemma_team_count_uniform(init, t, u);
        assert(players.last() == players[players.len() - 1]);
    }
}

/// The match shape is the largest number of players carrying one team number
/// (0 to 3), as long as every such count is below 256: no team holds more,
/// and one team holds exactly that many.
pub proof fn lemma_team_size_is_largest_team(players: Seq<PlayerTick>)
    requires
        forall|t: i64| 0 <= t < 4 ==> #[trigger] team_count(players, t) < 256,
    ensures
        forall|t: i64| 0 <= t < 4 ==> team_size_of(players) >= #[trigger] team_count(players, t),
        exists|t: i64| 0 <= t < 4 && team_size_of(players) == #[trigger] team_count(players, t),
{
    assert(team_count(players, 0) < 256);
    assert(team_count(players, 1) < 256);
    assert(team_count(players, 2) < 256);
    assert(team_count(players, 3) < 256);
    let m = team_size_of(players);
    if m == team_count(players, 0) {
        assert(0 <= 0i64 < 4 && m == team_count(players, 0i64));
    } else if m == team_count(players, 1) {
        assert(0 <= 1i64 < 4 && m == team_count(players, 1i64));
    } else if m == team_count(players, 2) {
        assert(0 <= 2i64 < 4 && m == team_count(players, 2i64));
    } else {
        assert(0 <= 3i64 < 4 && m == team_count(players, 3i64));
    }
}

/// Up to 255 players all on one team (0 to 3) make a match of that many
/// players per team: a 4v4 side of four is a shape of four, never capped lower.
pub proof fn lemma_one_team_shape(players: Seq<PlayerTick>, t: i64)
    requires
        0 <= t < 4,
        players.len() <= 255,
        forall|i: int| 0 <= i < players.len() ==> #[trigger] players[i].team_num == Some(t),
    ensures
        team_size_of(players) == players.len(),
{
    lemma_team_count_uniform(players, t, 0);
    lemma_team_count_uniform(players, t, 1);
    lemma_team_count_uniform(players, t, 2);
    lemma_team_count_uniform(players, t, 3);
}

// ---------- recognising the local player// ---------- recognising the local player ------------------------------------

/// The player carries exactly the stored `PrimaryId`.
pub open spec fn has_primary_id(p: PlayerTick, id: Seq<char>) -> bool {
    p.primary_id matches Some(pid) && pid@ == id
}

/// The player's `PrimaryId` begins with one of the detected platform prefixes.
pub open spec fn has_candidate_prefix(p: PlayerTick, candidates: Seq<Seq<char>>) -> bool {
    p.primary_id matches Some(pid) && exists|k: int| 0 <= k < candidates.len() && starts_with(pid@, #[trigger] candidates[k])
}

/// The player's `Name` equals `name` up to ASCII case.
pub open spec fn has_name(p: PlayerTick, name: Seq<char>) -> bool {
    p.name matches Some(n) && eq_ignore_ascii_case(n@, name)
}

/// Index of the first player from `i` on carrying the stored `PrimaryId`.
pub open spec fn first_with_id(players: Seq<PlayerTick>, id: Seq<char>, i: int) -> Option<int>
    decreases players.len() - i,
{
    if i < 0 || i >= players.len() {
        None
    } else if has_primary_id(players[i], id) {
        Some(i)
    } else {
        first_with_id(players, id, i + 1)
    }
}

/// Index of the first player from `i` on whose `PrimaryId` has a detected prefix.
pub open spec fn first_with_prefix(players: Seq<PlayerTick>, candidates: Seq<Seq<char>>, i: int) -> Option<int>
    decreases players.len() - i,
{
    if i < 0 || i >= players.len() {
        None
    } else if has_candidate_prefix(players[i], candidates) {
        Some(i)
    } else {
        first_with_prefix(players, candidates, i + 1)
    }
}

/// Index of the first player from `i` on with the configured name.
pub open spec fn first_with_name(players: Seq<PlayerTick>, name: Seq<char>, i: int) -> Option<int>
    decreases players.len() - i,
{
    if i < 0 || i >= players.len() {
        None
    } else if has_name(players[i], name) {
        Some(i)
    } else {
        first_with_name(players, name, i + 1)
    }
}

/// Which player is us: the first carrying the stored `PrimaryId` (when one is
/// stored); failing that, the first whose `PrimaryId` starts with a detected
/// platform prefix (when any was detected); failing that, the first whose
/// name matches the configured one up to ASCII case (when one is configured).
pub open spec fn local_player_index(
    players: Seq<PlayerTick>,
    name: Seq<char>,
    primary_id: Seq<char>,
    candidates: Seq<Seq<char>>,
) -> Option<int> {
    let by_id = first_with_id(players, primary_id, 0);
    let by_prefix = first_with_prefix(players, candidates, 0);
    if primary_id.len() > 0 && by_id is Some {
        by_id
    } else if candidates.len() > 0 && by_prefix is Some {
        by_prefix
    } else if name.len() > 0 {
        first_with_name(players, name, 0)
    } else {
        None
    }
}

fn pid_has_prefix(pid: &[char], candidates: &[String]) -> (r: bool)
    ensures
        r == exists|k: int| 0 <= k < candidates@.len() && starts_with(pid@, (#[trigger] candidates@[k])@),
{
    let mut k: usize = 0;
    while k < candidates.len()
        invariant
            k <= candidates@.len(),
            forall|m: int| 0 <= m < k ==> !starts_with(pid@, (#[trigger] candidates@[m])@),
        decreases candidates@.len() - k,
    {
        let c = chars_of(candidates[k].as_str());
        if chars_starts_with(pid, c.as_slice()) {
            assert(starts_with(pid@, candidates@[k as int]@));
            return true;
        }
        k += 1;
    }
    false
}

/// Identify the local player among the `Players[]` of a tick (see
/// [`local_player_index`]); returns its index.
pub fn find_local_player(
    players: &[PlayerTick],
    name: &str,
    primary_id: &str,
    candidates: &[String],
) -> (r: Option<usize>)
    ensures
        match r {
            Some(i) => local_player_index(players@, name@, primary_id@, candidates@.map_values(|c: String| c@)) == Some(i as int),
            None => local_player_index(players@, name@, primary_id@, candidates@.map_values(|c: String| c@)) is None,
        },
        r matches Some(i) ==> i < players@.len(),
{
    let ghost cands = candidates@.map_values(|c: String| c@);
    let id_chars = chars_of(primary_id);
    if id_chars.len() > 0 {
        let mut i: usize = 0;
        while i < players.len()
            invariant
                i <= players@.len(),
                id_chars@ == primary_id@,
                primary_id@.len() > 0,
                first_with_id(players@, primary_id@, 0) == first_with_id(players@, primary_id@, i as int),
            decreases players@.len() - i,
        {
            match &players[i].primary_id {
                Some(pid) => {
                    let pc = chars_of(pid.as_str());
                    if chars_eq(pc.as_slice(), id_chars.as_slice()) {
                        proof {
                            assert(has_primary_id(players@[i as int], primary_id@));
                        }
                        return Some(i);
                    }
                },
                None => {},
            }
            i += 1;
        }
    }
    if candidates.len() > 0 {
        let mut i: usize = 0;
        while i < players.len()
            invariant
                i <= players@.len(),
                cands == candidates@.map_values(|c: String| c@),
                primary_id@.len() > 0 ==> first_with_id(players@, primary_id@, 0) is None,
                first_with_prefix(players@, cands, 0) == first_with_prefix(players@, cands, i as int),
            decreases players@.len() - i,
        {
            match &players[i].primary_id {
                Some(pid) => {
                    let pc = chars_of(pid.as_str());
                    if pid_has_prefix(pc.as_slice(), candidates) {
                        proof {
                            let k = choose|k: int| 0 <= k < candidates@.len() && starts_with(pc@, (#[trigger] candidates@[k])@);
                            assert(cands[k] == candidates@[k]@);
                            assert(has_candidate_prefix(players@[i as int], cands));
                        }
                        return Some(i);
                    }
                    proof {
                        assert forall|k: int| 0 <= k < cands.len() implies !starts_with(pc@, #[trigger] cands[k]) by {
                            assert(cands[k] == candidates@[k]@);
                        }
                    }
                },
                None => {},
            }
            i += 1;
        }
    }
    let name_chars = chars_of(name);
    if name_chars.len() > 0 {
        let mut i: usize = 0;
        while i < players.len()
            invariant
                i <= players@.len(),
                name_chars@ == name@,
                name@.len() > 0,
                cands == candidates@.map_values(|c: String| c@),
                primary_id@.len() > 0 ==> first_with_id(players@, primary_id@, 0) is None,
                candidates@.len() > 0 ==> first_with_prefix(players@, cands, 0) is None,
                first_with_name(players@, name@, 0) == first_with_name(players@, name@, i as int),
            decreases players@.len() - i,
        {
            match &players[i].name {
                Some(n) => {
                    let nc = chars_of(n.as_str());
                    if chars_eq_ignore_ascii_case(nc.as_slice(), name_chars.as_slice()) {
                        proof {
                            assert(has_name(players@[i as int], name@));
                        }
                        return Some(i);
                    }
                },
                None => {},
            }
            i += 1;
        }
        return None;
    }
    None
}

// ---------- identity learned from the local player ----------------------------

/// What a tick teaches about the local player: a `PrimaryId` to store (on
/// first capture or after an account switch), a display name to store, and
/// the team the player is on.
#[derive(Debug, Clone, PartialEq, Eq)]
pub struct IdentityUpdate {
    pub primary_id: Option<String>,
    pub player_name: Option<String>,
    pub local_team: Option<i32>,
}

/// The trimmed `PrimaryId` of the local player (empty when missing).
pub open spec fn seen_primary_id(me: PlayerTick) -> Seq<char> {
    trim(str_or_empty(me.primary_id))
}

/// The trimmed `Name` of the local player (empty when missing).
pub open spec fn seen_name(me: PlayerTick) -> Seq<char> {
    trim(str_or_empty(me.name))
}

/// The stored `PrimaryId` is replaced when the player shows a non-empty one
/// that differs from it.
pub open spec fn primary_id_changes(stored_primary_id: Seq<char>, me: PlayerTick) -> bool {
    seen_primary_id(me).len() > 0 && seen_primary_id(me) != stored_primary_id
}

/// The stored name is replaced by a non-empty, different seen name only when
/// none is stored yet, or in auto mode (platform candidates detected, the user
/// cannot type a name) when the account changed. A name typed by the user is
/// never overwritten.
pub open spec fn name_changes(player_name: Seq<char>, stored_primary_id: Seq<char>, auto_mode: bool, me: PlayerTick) -> bool {
    &&& seen_name(me).len() > 0
    &&& seen_name(me) != player_name
    &&& (player_name.len() == 0 || (auto_mode && primary_id_changes(stored_primary_id, me)))
}

fn trimmed_field(o: &Option<String>) -> (r: Vec<char>)
    ensures
        r@ == trim(str_or_empty(*o)),
{
    match o {
        Some(s) => {
            let c = chars_of(s.as_str());
            let (a, b) = trim_range(c.as_slice(), 0, c.len());
            proof {
                assert(c@.subrange(0, c@.len() as int) =~= c@);
            }
            copy_range(c.as_slice(), a, b)
        },
        None => {
            let v: Vec<char> = Vec::new();
            proof {
                assert(v@ =~= seq![]);
                assert(trim(seq![]) =~= seq![]);
            }
            v
        },
    }
}

/// A learned identity is stable: a tick showing the stored `PrimaryId` (or
/// none at all) never replaces it, whatever name the player carries now; a
/// name the user typed (manual mode) is never overwritten; and in auto mode
/// a stored name only follows an account switch.
pub proof fn lemma_identity_is_stable(player_name: Seq<char>, stored_primary_id: Seq<char>, auto_mode: bool, me: PlayerTick)
    ensures
        seen_primary_id(me) == stored_primary_id || seen_primary_id(me).len() == 0
            ==> !primary_id_changes(stored_primary_id, me),
        !auto_mode && player_name.len() > 0 ==> !name_changes(player_name, stored_primary_id, auto_mode, me),
        player_name.len() > 0 && !primary_id_changes(stored_primary_id, me)
            ==> !name_changes(player_name, stored_primary_id, auto_mode, me),
{
}

/// `u` is what the local player's entry `me` changes, given the stored name
/// and `PrimaryId`: a new `PrimaryId` exactly when [`primary_id_changes`], a
/// new name exactly when [`name_changes`], and the team as a 32-bit number
/// (truncated) when the entry carries one.
pub open spec fn identity_update_of(
    u: IdentityUpdate,
    player_name: Seq<char>,
    stored_primary_id: Seq<char>,
    auto_mode: bool,
    me: PlayerTick,
) -> bool {
    &&& u.primary_id is Some == primary_id_changes(stored_primary_id, me)
    &&& u.primary_id matches Some(p) ==> p@ == seen_primary_id(me)
    &&& u.player_name is Some == name_changes(player_name, stored_primary_id, auto_mode, me)
    &&& u.player_name matches Some(n) ==> n@ == seen_name(me)
    &&& u.local_team == match me.team_num { Some(n) => Some(n as i32), None => None::<i32> }
}

/// Decide what the local player's entry of a tick changes in the settings:
/// `player_name` and `stored_primary_id` are the stored values, `auto_mode`
/// tells whether platform candidates were detected.
pub fn identity_update(player_name: &str, stored_primary_id: &str, auto_mode: bool, me: &PlayerTick) -> (u: IdentityUpdate)
    ensures
        identity_update_of(u, player_name@, stored_primary_id@, auto_mode, *me),
{
    let new_pid = trimmed_field(&me.primary_id);
    let new_name = trimmed_field(&me.name);
    let stored = chars_of(stored_primary_id);
    let current_name = chars_of(player_name);
    let pid_changed = new_pid.len() > 0 && !chars_eq(new_pid.as_slice(), stored.as_slice());
    let name_should_update = new_name.len() > 0 && !chars_eq(new_name.as_slice(), current_name.as_slice())
        && (current_name.len() == 0 || (auto_mode && pid_changed));
    let local_team: Option<i32> = match me.team_num {
        Some(n) => Some(n as i32),
        None => None,
    };
    IdentityUpdate {
        primary_id: if pid_changed { Some(string_from_chars(new_pid.as_slice())) } else { None },
        player_name: if name_should_update { Some(string_from_chars(new_name.as_slice())) } else { None },
        local_team,
    }
}

// ---------- a whole UpdateState tick ------------------------------------------

/// What one `UpdateState` tick changes in the shared state.
#[derive(Debug, Clone)]
pub struct UpdateStateOutcome {
    /// The match shape to cache, when the tick shows one (non-zero).
    pub team_size: Option<u8>,
    /// The decoded live stats; the app publishes them when they differ from
    /// the ones it holds.
    pub stats: MatchStats,
    /// What the local player's entry teaches, when the local player is found.
    pub identity: Option<IdentityUpdate>,
}

/// Decide what an `UpdateState` tick with these `Players[]` and this `Game`
/// block changes, given the stored `player_name` and `PrimaryId` and the
/// detected platform candidates (auto mode when there is any).
pub fn on_update_state(
    players: &[PlayerTick],
    game: Option<&GameTick>,
    player_name: &str,
    stored_primary_id: &str,
    candidates: &[String],
) -> (r: UpdateStateOutcome)
    ensures
        r.team_size == if team_size_of(players@) > 0 { Some(team_size_of(players@) as u8) } else { None::<u8> },
        match_stats_of(r.stats, players@, match game { Some(g) => Some(*g), None => None }),
        match local_player_index(players@, player_name@, stored_primary_id@, candidates@.map_values(|c: String| c@)) {
            Some(i) => r.identity matches Some(u) && identity_update_of(
                u,
                player_name@,
                stored_primary_id@,
                candidates@.len() > 0,
                players@[i],
            ),
            None => r.identity is None,
        },
{
    let size = compute_team_size(players);
    let team_size = if size > 0 { Some(size) } else { None };
    let stats = parse_match_stats(players, game);
    let identity = match find_local_player(players, player_name, stored_primary_id, candidates) {
        Some(i) => {
            Some(identity_update(player_name, stored_primary_id, candidates.len() > 0, &players[i]))
        },
        None => None,
    };
    UpdateStateOutcome { team_size, stats, identity }
}

// ---------- MatchEnded ---------------------------------------------------------

/// The winner a match is settled with: the reported `WinnerTeamNum`; when the
/// game sent none (forfeits, a host leaving), the team ahead on the last
/// tick's `[blue, orange]` score; none on a tie.
pub open spec fn winner_of(reported: Option<i64>, last_team_scores: [u32; 2]) -> Option<i64> {
    match reported {
        Some(w) => Some(w),
        None => if last_team_scores[0] > last_team_scores[1] {
            Some(0)
        } else if last_team_scores[1] > last_team_scores[0] {
            Some(1)
        } else {
            None
        },
    }
}

/// The winner to settle a match with (see [`winner_of`]).
pub fn settled_winner(reported: Option<i64>, last_team_scores: [u32; 2]) -> (w: Option<i64>)
    ensures
        w == winner_of(reported, last_team_scores),
{
    match reported {
        Some(w) => Some(w),
        None => if last_team_scores[0] > last_team_scores[1] {
            Some(0)
        } else if last_team_scores[1] > last_team_scores[0] {
            Some(1)
        } else {
            None
        },
    }
}

/// Whether a `MatchEnded` event counts toward the session: the local team and
/// the winner are known, the match shape passes the team-size filter (an
/// unknown shape, 0, always does), and the event is not a replay of the last
/// counted match (same non-empty `MatchGuid`).
pub open spec fn match_end_counts(
    local_team: Option<i32>,
    winner: Option<i64>,
    team_size: u8,
    count_team_sizes: Seq<u8>,
    match_guid: Seq<char>,
    last_counted: Option<Seq<char>>,
) -> bool {
    &&& local_team is Some
    &&& winner is Some
    &&& (team_size == 0 || count_team_sizes.contains(team_size))
    &&& !(match_guid.len() > 0 && last_counted == Some(match_guid))
}

/// The session after a counted match: a win when the winner (truncated to
/// `i32` as the event is read) is the local team, a loss otherwise.
pub open spec fn session_after_match(s: Session, local_team: i32, winner: i64, now: u64) -> Session {
    if winner as i32 == local_team { s.after_win(now) } else { s.after_loss(now) }
}

/// The remembered last counted match after a counted match.
pub open spec fn last_counted_after(match_guid: Seq<char>, last_counted: Option<Seq<char>>) -> Option<Seq<char>> {
    if match_guid.len() > 0 { Some(match_guid) } else { last_counted }
}

pub open spec fn opt_string_view(o: Option<String>) -> Option<Seq<char>> {
    match o {
        Some(s) => Some(s@),
        None => None,
    }
}

fn contains_u8(v: &[u8], x: u8) -> (r: bool)
    ensures
        r == v@.contains(x),
{
    let mut i: usize = 0;
    while i < v.len()
        invariant
            i <= v@.len(),
            forall|k: int| 0 <= k < i ==> v@[k] != x,
        decreases v@.len() - i,
    {
        if v[i] == x {
            assert(v@[i as int] == x);
            return true;
        }
        i += 1;
    }
    false
}

/// Settle a `MatchEnded` event at `now`: when it counts (see
/// [`match_end_counts`]) the session records the win or loss and the match's
/// guid (if any) is remembered; otherwise nothing changes. Returns whether
/// the match was counted.
pub fn on_match_ended(
    session: &mut Session,
    last_counted_match: &mut Option<String>,
    local_team: Option<i32>,
    winner: Option<i64>,
    team_size: u8,
    count_team_sizes: &[u8],
    match_guid: &str,
    now: u64,
) -> (counted: bool)
    requires
        old(session).wins < u32::MAX,
        old(session).losses < u32::MAX,
        i32::MIN < old(session).streak < i32::MAX,
    ensures
        counted == match_end_counts(local_team, winner, team_size, count_team_sizes@, match_guid@,
            opt_string_view(*old(last_counted_match))),
        !counted ==> *final(session) == *old(session) && *final(last_counted_match) == *old(last_counted_match),
        counted ==> *final(session) == session_after_match(*old(session), local_team->0, winner->0, now),
        counted ==> opt_string_view(*final(last_counted_match))
            == last_counted_after(match_guid@, opt_string_view(*old(last_counted_match))),
{
    let team = match local_team {
        Some(t) => t,
        None => return false,
    };
    let w: i32 = match winner {
        Some(w) => w as i32,
        None => return false,
    };
    if team_size != 0 {
        if !contains_u8(count_team_sizes, team_size) {
            return false;
        }
    }
    let guid = chars_of(match_guid);
    if guid.len() > 0 {
        let replay = match &*last_counted_match {
            Some(last) => {
                let lc = chars_of(last.as_str());
                chars_eq(lc.as_slice(), guid.as_slice())
            },
            None => false,
        };
        if replay {
            return false;
        }
        *last_counted_match = Some(string_from_chars(guid.as_slice()));
    }
    if w == team {
        session.record_win_at(now);
    } else {
        session.record_loss_at(now);
    }
    true
}

/// A counted `MatchEnded` is a win exactly when the (32-bit) winner is the
/// local team, whichever team number that is, and a loss otherwise: a win adds
/// one to the wins, leaves the losses alone and leaves a positive streak; a
/// loss adds one to the losses, leaves the wins alone and leaves a negative
/// streak. Either way the session is stamped with the event's time.
pub proof fn lemma_match_end_win_iff_local_team_won(s: Session, local_team: i32, winner: i64, now: u64)
    requires
        s.wins < u32::MAX,
        s.losses < u32::MAX,
        i32::MIN < s.streak < i32::MAX,
    ensures
        winner as i32 == local_team ==> session_after_match(s, local_team, winner, now).wins == s.wins + 1
            && session_after_match(s, local_team, winner, now).losses == s.losses
            && session_after_match(s, local_team, winner, now).streak >= 1,
        winner as i32 != local_team ==> session_after_match(s, local_team, winner, now).losses == s.losses + 1
            && session_after_match(s, local_team, winner, now).wins == s.wins
            && session_after_match(s, local_team, winner, now).streak <= -1,
        session_after_match(s, local_team, winner, now).last_update == now,
{
}

/// A replayed `MatchEnded` is never counted twice: once an event with a
/// non-empty `MatchGuid` has been counted, the same event arriving again
/// (whatever else it carries) does not count.
pub proof fn lemma_match_end_replay_not_counted(
    local_team: Option<i32>,
    winner: Option<i64>,
    team_size: u8,
    count_team_sizes: Seq<u8>,
    match_guid: Seq<char>,
    last_counted: Option<Seq<char>>,
    again_local_team: Option<i32>,
    again_winner: Option<i64>,
    again_team_size: u8,
)
    requires
        match_guid.len() > 0,
        match_end_counts(local_team, winner, team_size, count_team_sizes, match_guid, last_counted),
    ensures
        !match_end_counts(again_local_team, again_winner, again_team_size, count_team_sizes, match_guid,
            last_counted_after(match_guid, last_counted)),
{
}

// ---------- cutting the byte stream into JSON envelopes --------------------------

/// What one attempt at parsing a JSON value at the start of a byte slice
/// gives: a complete value spanning the first `n` bytes, an input that ends
/// before the value does, a syntax error, or nothing but whitespace.
#[derive(Debug, Clone, Copy, PartialEq, Eq)]
pub enum JsonStep {
    Value(usize),
    Incomplete,
    Malformed,
    Exhausted,
}

/// The outcome of `serde_json`'s streaming parser on `bytes` (see
/// [`scan_json_value`]).
pub uninterp spec fn json_step_of(bytes: Seq<u8>) -> JsonStep;

/// Parse one JSON value at the start of `bytes` with `serde_json`'s
/// streaming deserializer (`Deserializer::from_slice(..).into_iter::<Value>()`,
/// one `next()`): `Value(byte_offset())` on success, `Incomplete` on an
/// end-of-input error (`Error::is_eof`), `Malformed` on any other error,
/// `Exhausted` when the input holds no value. The outcome depends on the
/// bytes alone. On success the offset counts the bytes of the value, which
/// is at least the first (non-whitespace) byte and at most the slice.
#[verifier::external_body]
fn scan_json_value(bytes: &[u8]) -> (r: JsonStep)
    requires
        bytes@.len() > 0,
        !is_ascii_whitespace(bytes@[0]),
    ensures
        r == json_step_of(bytes@),
        r matches JsonStep::Value(n) ==> 0 < n <= bytes@.len(),
{
    let mut de = serde_json::Deserializer::from_slice(bytes).into_iter::<serde_json::Value>();
    match de.next() {
        Some(Ok(_)) => JsonStep::Value(de.byte_offset()),
        Some(Err(e)) if e.is_eof() => JsonStep::Incomplete,
        Some(Err(_)) => JsonStep::Malformed,
        None => JsonStep::Exhausted,
    }
}

/// ASCII whitespace (`u8::is_ascii_whitespace`): space, tab, line feed, form
/// feed, carriage return.
pub open spec fn is_ascii_whitespace(b: u8) -> bool {
    b == 0x20 || b == 0x09 || b == 0x0A || b == 0x0C || b == 0x0D
}

/// Index of the first non-whitespace byte of `buf`, or its length.
pub open spec fn skip_whitespace(buf: Seq<u8>) -> int
    decreases buf.len(),
{
    if buf.len() > 0 && is_ascii_whitespace(buf[0]) { 1 + skip_whitespace(buf.drop_first()) } else { 0 }
}

/// Index of the first `{` or `[` of `buf`, or `None`.
pub open spec fn next_open(buf: Seq<u8>) -> Option<int>
    decreases buf.len(),
{
    if buf.len() == 0 {
        None
    } else if buf[0] == 0x7B || buf[0] == 0x5B {
        Some(0)
    } else {
        match next_open(buf.drop_first()) {
            Some(p) => Some(p + 1),
            None => None,
        }
    }
}

proof fn lemma_skip_whitespace_bounds(buf: Seq<u8>)
    ensures
        0 <= skip_whitespace(buf) <= buf.len(),
        skip_whitespace(buf) < buf.len() ==> !is_ascii_whitespace(buf[skip_whitespace(buf)]),
        forall|k: int| 0 <= k < skip_whitespace(buf) ==> is_ascii_whitespace(buf[k]),
    decreases buf.len(),
{
    if buf.len() > 0 && is_ascii_whitespace(buf[0]) {
        lemma_skip_whitespace_bounds(buf.drop_first());
        assert forall|k: int| 0 <= k < skip_whitespace(buf) implies is_ascii_whitespace(buf[k]) by {
            if k > 0 {
                assert(buf[k] == buf.drop_first()[k - 1]);
            }
        }
    }
}

proof fn lemma_next_open_bounds(buf: Seq<u8>)
    ensures
        next_open(buf) matches Some(p) ==> 0 <= p < buf.len() && (buf[p] == 0x7B || buf[p] == 0x5B),
        next_open(buf) matches Some(p) ==> forall|k: int| 0 <= k < p ==> !(buf[k] == 0x7B || buf[k] == 0x5B),
        next_open(buf) is None ==> forall|k: int| 0 <= k < buf.len() ==> !(buf[k] == 0x7B || buf[k] == 0x5B),
    decreases buf.len(),
{
    if buf.len() > 0 {
        lemma_next_open_bounds(buf.drop_first());
        if !(buf[0] == 0x7B || buf[0] == 0x5B) {
            assert forall|k: int| 0 < k < buf.len() implies buf[k] == buf.drop_first()[k - 1] by {}
        }
    }
}

/// Drain every complete JSON envelope from the front of `buf`: the envelopes
/// found (in order) and what stays in the buffer. Leading whitespace is
/// skipped; a complete value is taken out; an incomplete one stays (without
/// the whitespace before it) for the next read; on a syntax error the scan
/// resumes at the next `{` or `[` after the offending byte, or the buffer is
/// emptied when there is none.
pub open spec fn drain_envelopes(buf: Seq<u8>) -> (Seq<Seq<u8>>, Seq<u8>)
    decreases buf.len(),
{
    let start = skip_whitespace(buf);
    if start < 0 || start >= buf.len() {
        (seq![], seq![])
    } else {
        match json_step_of(buf.skip(start)) {
            JsonStep::Value(n) => {
                if 0 < n && start + n <= buf.len() {
                    let rest = drain_envelopes(buf.skip(start + n));
                    (seq![buf.subrange(start, start + n)].add(rest.0), rest.1)
                } else {
                    (seq![], buf)
                }
            },
            JsonStep::Incomplete => (seq![], buf.skip(start)),
            JsonStep::Malformed => {
                let after = start + 1;
                match next_open(buf.skip(after)) {
                    Some(p) => {
                        if 0 <= p && after + p <= buf.len() {
                            drain_envelopes(buf.skip(after + p))
                        } else {
                            (seq![], seq![])
                        }
                    },
                    None => (seq![], seq![]),
                }
            },
            JsonStep::Exhausted => (seq![], buf),
        }
    }
}

/// `envs` sit in `buf` in order, each a contiguous piece of it, none
/// overlapping the next, and `rest` is a tail of what follows the last one.
pub open spec fn laid_out(buf: Seq<u8>, envs: Seq<Seq<u8>>, rest: Seq<u8>) -> bool
    decreases envs.len(),
{
    if envs.len() == 0 {
        exists|k: int| 0 <= k <= buf.len() && rest == #[trigger] buf.skip(k)
    } else {
        exists|a: int|
            0 <= a && a + envs[0].len() <= buf.len() && #[trigger] buf.subrange(a, a + envs[0].len()) == envs[0]
                && laid_out(buf.skip(a + envs[0].len()), envs.drop_first(), rest)
    }
}

proof fn lemma_laid_out_in_longer(buf: Seq<u8>, m: int, envs: Seq<Seq<u8>>, rest: Seq<u8>)
    requires
        0 <= m <= buf.len(),
        laid_out(buf.skip(m), envs, rest),
    ensures
        laid_out(buf, envs, rest),
{
    let t = buf.skip(m);
    if envs.len() == 0 {
        let k = choose|k: int| 0 <= k <= t.len() && rest == #[trigger] t.skip(k);
        assert(t.skip(k) =~= buf.skip(m + k));
    } else {
        let a = choose|a: int|
            0 <= a && a + envs[0].len() <= t.len() && #[trigger] t.subrange(a, a + envs[0].len()) == envs[0]
                && laid_out(t.skip(a + envs[0].len()), envs.drop_first(), rest);
        let e = envs[0].len();
        assert(buf.subrange(m + a, m + a + e) =~= t.subrange(a, a + e));
        assert(t.skip(a + e) =~= buf.skip(m + a + e));
    }
}

/// Draining keeps the stream's order: the envelopes taken out sit in the
/// buffer one after the other, each a contiguous piece of it, and what stays
/// is the tail after the last of them (a partial envelope straddling the
/// next read is kept whole).
pub proof fn lemma_drain_keeps_stream_order(buf: Seq<u8>)
    ensures
        laid_out(buf, drain_envelopes(buf).0, drain_envelopes(buf).1),
    decreases buf.len(),
{
    let start = skip_whitespace(buf);
    lemma_skip_whitespace_bounds(buf);
    let (envs, rest) = drain_envelopes(buf);
    if start >= buf.len() {
        assert(rest =~= buf.skip(buf.len() as int));
    } else {
        match json_step_of(buf.skip(start)) {
            JsonStep::Value(n) => {
                if 0 < n && start + n <= buf.len() {
                    let tail = buf.skip(start + n);
                    lemma_drain_keeps_stream_order(tail);
                    let piece = buf.subrange(start, start + n);
                    assert(envs[0] == piece);
                    assert(envs.drop_first() =~= drain_envelopes(tail).0);
                    assert(buf.subrange(start, start + envs[0].len()) == envs[0]);
                } else {
                    assert(rest =~= buf.skip(0));
                }
            },
            JsonStep::Incomplete => {
                assert(rest == buf.skip(start));
            },
            JsonStep::Malformed => {
                let after = start + 1;
                lemma_next_open_bounds(buf.skip(after));
                match next_open(buf.skip(after)) {
                    Some(p) => {
                        if 0 <= p && after + p <= buf.len() {
                            lemma_drain_keeps_stream_order(buf.skip(after + p));
                            lemma_laid_out_in_longer(buf, after + p, envs, rest);
                        } else {
                            assert(rest =~= buf.skip(buf.len() as int));
                        }
                    },
                    None => {
                        assert(rest =~= buf.skip(buf.len() as int));
                    },
                }
            },
            JsonStep::Exhausted => {
                assert(rest =~= buf.skip(0));
            },
        }
    }
}

fn copy_bytes(buf: &[u8], lo: usize, hi: usize) -> (v: Vec<u8>)
    requires
        lo <= hi <= buf@.len(),
    ensures
        v@ == buf@.subrange(lo as int, hi as int),
{
    let mut v: Vec<u8> = Vec::new();
    let mut i = lo;
    while i < hi
        invariant
            lo <= i <= hi <= buf@.len(),
            v@ == buf@.subrange(lo as int, i as int),
        decreases hi - i,
    {
        v.push(buf[i]);
        proof {
            assert(v@ =~= buf@.subrange(lo as int, i + 1));
        }
        i += 1;
    }
    v
}

fn byte_is_ascii_whitespace(b: u8) -> (r: bool)
    ensures
        r == is_ascii_whitespace(b),
{
    b == 0x20 || b == 0x09 || b == 0x0A || b == 0x0C || b == 0x0D
}

/// Pull every complete JSON envelope out of `buf` (see [`drain_envelopes`]):
/// the envelopes are returned in order for dispatch, and anything after the
/// last complete one (a partial object straddling the next read) stays in
/// `buf`. Bytes are never decoded as text here, so a multi-byte character
/// split across reads cannot corrupt what follows it.
pub fn drain_complete_envelopes(buf: &mut Vec<u8>) -> (envelopes: Vec<Vec<u8>>)
    ensures
        envelopes@.map_values(|e: Vec<u8>| e@) == drain_envelopes(old(buf)@).0,
        final(buf)@ == drain_envelopes(old(buf)@).1,
{
    let ghost whole = buf@;
    let mut out: Vec<Vec<u8>> = Vec::new();
    let mut off: usize = 0;
    proof {
        assert(whole.skip(0) =~= whole);
        assert(out@.map_values(|e: Vec<u8>| e@).add(drain_envelopes(whole).0) =~= drain_envelopes(whole).0);
    }
    loop
        invariant
            buf@ == whole,
            whole == old(buf)@,
            off <= whole.len(),
            drain_envelopes(whole).0 == out@.map_values(|e: Vec<u8>| e@).add(drain_envelopes(whole.skip(off as int)).0),
            drain_envelopes(whole).1 == drain_envelopes(whole.skip(off as int)).1,
        decreases whole.len() - off,
    {
        let ghost cur = whole.skip(off as int);
        let mut start = off;
        while start < buf.len() && byte_is_ascii_whitespace(buf[start])
            invariant
                buf@ == whole,
                off <= start <= whole.len(),
                cur == whole.skip(off as int),
                forall|k: int| off <= k < start ==> is_ascii_whitespace(#[trigger] whole[k]),
            decreases whole.len() - start,
        {
            start += 1;
        }
        proof {
            lemma_skip_whitespace_bounds(cur);
            let sw = skip_whitespace(cur);
            if sw < start - off {
                assert(!is_ascii_whitespace(cur[sw]));
                assert(cur[sw] == whole[off + sw]);
            }
            if start - off < sw {
                assert(is_ascii_whitespace(cur[start - off]));
                assert(cur[start - off] == whole[start as int]);
            }
            assert(sw == start - off);
        }
        if start >= buf.len() {
            proof {
                assert(drain_envelopes(cur) == (Seq::<Seq<u8>>::empty(), Seq::<u8>::empty()));
                assert(out@.map_values(|e: Vec<u8>| e@).add(seq![]) =~= out@.map_values(|e: Vec<u8>| e@));
            }
            buf.clear();
            return out;
        }
        let tail = copy_bytes(buf.as_slice(), start, buf.len());
        proof {
            assert(tail@ =~= cur.skip(start - off));
            assert(whole.skip(start as int) =~= cur.skip(start - off));
        }
        let step = scan_json_value(tail.as_slice());
        match step {
            JsonStep::Value(n) => {
                let env = copy_bytes(buf.as_slice(), start, start + n);
                proof {
                    assert(cur.subrange(start - off, start - off + n) =~= env@);
                    assert(cur.skip(start - off + n) =~= whole.skip(start + n));
                    let r = drain_envelopes(whole.skip(start + n));
                    assert(out@.push(env).map_values(|e: Vec<u8>| e@)
                        =~= out@.map_values(|e: Vec<u8>| e@).push(env@));
                    assert(out@.map_values(|e: Vec<u8>| e@).add(seq![env@].add(r.0))
                        =~= out@.map_values(|e: Vec<u8>| e@).push(env@).add(r.0));
                }
                out.push(env);
                off = start + n;
            },
            JsonStep::Incomplete => {
                proof {
                    assert(out@.map_values(|e: Vec<u8>| e@).add(seq![]) =~= out@.map_values(|e: Vec<u8>| e@));
                    assert(cur.skip(start - off) =~= tail@);
                }
                *buf = tail;
                return out;
            },
            JsonStep::Malformed => {
                let after = start + 1;
                let mut p = after;
                while p < buf.len() && !(buf[p] == 0x7B || buf[p] == 0x5B)
                    invariant
                        buf@ == whole,
                        after <= p <= whole.len(),
                        forall|k: int| after <= k < p ==> !(whole[k] == 0x7B || whole[k] == 0x5B),
                    decreases whole.len() - p,
                {
                    p += 1;
                }
                proof {
                    let rest = cur.skip(start - off + 1);
                    assert(rest =~= whole.skip(after as int));
                    lemma_next_open_bounds(rest);
                    match next_open(rest) {
                        Some(q) => {
                            if q < p - after {
                                assert(rest[q] == whole[after + q]);
                            }
                            if p - after < q {
                                assert(p < whole.len());
                                assert(rest[p - after] == whole[p as int]);
                            }
                            assert(q == p - after);
                            assert(cur.skip(start - off + 1 + q) =~= whole.skip(p as int));
                        },
                        None => {
                            if p < whole.len() {
                                assert(rest[p - after] == whole[p as int]);
                            }
                        },
                    }
                }
                if p >= buf.len() {
                    proof {
                        assert(out@.map_values(|e: Vec<u8>| e@).add(seq![]) =~= out@.map_values(|e: Vec<u8>| e@));
                    }
                    buf.clear();
                    return out;
                }
                off = p;
            },
            JsonStep::Exhausted => {
                proof {
                    assert(out@.map_values(|e: Vec<u8>| e@).add(seq![]) =~= out@.map_values(|e: Vec<u8>| e@));
                }
                let rest = copy_bytes(buf.as_slice(), off, buf.len());
                proof {
                    assert(rest@ =~= cur);
                }
                *buf = rest;
                return out;
            },
        }
    }
}

} // verus!
