//! Integer bookkeeping of the in-progress match recorder: reading the
//! payload's counters, the per-tick counters of the local team's players,
//! ball and crossbar hits, and the statfeed log entries. The floating-point
//! aggregates (speed, distance, boost-per-minute) stay in the app.

use vstd::prelude::*;
use crate::storage::StatfeedRecord;
use crate::text::{chars_eq, chars_of};
use crate::stats_api::{GameTick, PlayerRef, PlayerTick, StatfeedTick, TeamTick, str_or_empty};
use crate::ws_client::{compute_team_size, counter_of, opt_string_view, team_size_of, u32_or_zero};

verus! {

/// A boost reading: the integer clamped to 0 – 100, zero when missing.
pub open spec fn boost_of(v: Option<i64>) -> u8 {
    match v {
        Some(n) => if n < 0 { 0 } else if n > 100 { 100 } else { n as u8 },
        None => 0,
    }
}

/// Read a 0 – 100 gauge (boost) from a payload field.
pub fn json_u8(v: Option<i64>) -> (r: u8)
    ensures
        r == boost_of(v),
{
    match v {
        Some(n) => if n < 0 { 0 } else if n > 100 { 100 } else { n as u8 },
        None => 0,
    }
}

/// Read a counter from a payload field: zero when missing or negative.
pub fn json_u32(v: Option<i64>) -> (r: u32)
    ensures
        r == counter_of(v),
{
    u32_or_zero(v)
}

/// The quarter of the gauge a boost reading falls in: 0–24, 25–49, 50–74,
/// 75 and up.
pub open spec fn bucket_of(boost: u8) -> int {
    if boost < 25 { 0 } else if boost < 50 { 1 } else if boost < 75 { 2 } else { 3 }
}

pub fn boost_bucket(boost: u8) -> (b: usize)
    ensures
        b as int == bucket_of(boost),
{
    if boost < 25 {
        0
    } else if boost < 50 {
        1
    } else if boost < 75 {
        2
    } else {
        3
    }
}

/// Per-player counters of the sampled ticks (local team only).
#[derive(Debug, Clone, Copy, PartialEq, Eq)]
pub struct TickCounters {
    pub sample_count: u32,
    pub boost_at_0_count: u32,
    pub boost_at_100_count: u32,
    /// Samples per quarter of the boost gauge: 0-25, 25-50, 50-75, 75-100.
    pub boost_buckets: [u32; 4],
    pub boosting_count: u32,
    pub ground_count: u32,
    pub aerial_count: u32,
    pub wall_count: u32,
    pub powerslide_active_ticks: u32,
    /// Number of powerslides started (rising edges of the flag).
    pub powerslide_count: u32,
    pub last_powerslide: bool,
    /// Number of times demolished (rising edges of the flag).
    pub demos_taken: u32,
    pub last_demolished: bool,
}

/// One sampled tick of a player, as the counters read it.
#[derive(Debug, Clone, Copy, PartialEq, Eq)]
pub struct TickSample {
    pub boost: u8,
    pub boosting: bool,
    pub on_ground: bool,
    pub on_wall: bool,
    pub powersliding: bool,
    pub demolished: bool,
}

impl TickCounters {
    /// No sample yet.
    pub open spec fn empty() -> TickCounters {
        TickCounters {
            sample_count: 0,
            boost_at_0_count: 0,
            boost_at_100_count: 0,
            boost_buckets: [0, 0, 0, 0],
            boosting_count: 0,
            ground_count: 0,
            aerial_count: 0,
            wall_count: 0,
            powerslide_active_ticks: 0,
            powerslide_count: 0,
            last_powerslide: false,
            demos_taken: 0,
            last_demolished: false,
        }
    }

    /// The counters partition the samples: the four boost quarters add up to
    /// the sample count, and so do wall, ground and air time; every other
    /// counter stays within the sample count, and powerslides started stay
    /// within the ticks spent powersliding.
    pub open spec fn wf(self) -> bool {
        &&& self.boost_buckets[0] + self.boost_buckets[1] + self.boost_buckets[2] + self.boost_buckets[3] == self.sample_count
        &&& self.wall_count + self.ground_count + self.aerial_count == self.sample_count
        &&& self.boost_at_0_count <= self.boost_buckets[0]
        &&& self.boost_at_100_count <= self.boost_buckets[3]
        &&& self.boosting_count <= self.sample_count
        &&& self.powerslide_count <= self.powerslide_active_ticks <= self.sample_count
        &&& self.demos_taken <= self.sample_count
        &&& self.last_powerslide ==> self.powerslide_count > 0
    }

    pub fn new() -> (c: TickCounters)
        ensures
            c == TickCounters::empty(),
            c.wf(),
    {
        TickCounters {
            sample_count: 0,
            boost_at_0_count: 0,
            boost_at_100_count: 0,
            boost_buckets: [0, 0, 0, 0],
            boosting_count: 0,
            ground_count: 0,
            aerial_count: 0,
            wall_count: 0,
            powerslide_active_ticks: 0,
            powerslide_count: 0,
            last_powerslide: false,
            demos_taken: 0,
            last_demolished: false,
        }
    }

    /// Count one sampled tick. A car on a wall may also report the ground
    /// flag; the wall wins. A powerslide or a demolition counts when its flag
    /// rises.
    pub fn sample(&mut self, s: TickSample)
        requires
            old(self).wf(),
            old(self).sample_count < u32::MAX,
        ensures
            final(self).wf(),
            final(self).sample_count == old(self).sample_count + 1,
            final(self).boost_at_0_count == old(self).boost_at_0_count + if s.boost == 0 { 1int } else { 0int },
            final(self).boost_at_100_count == old(self).boost_at_100_count + if s.boost == 100 { 1int } else { 0int },
            forall|b: int| 0 <= b < 4 ==> #[trigger] final(self).boost_buckets[b]
                == old(self).boost_buckets[b] + if b == bucket_of(s.boost) { 1int } else { 0int },
            final(self).boosting_count == old(self).boosting_count + if s.boosting { 1int } else { 0int },
            final(self).wall_count == old(self).wall_count + if s.on_wall { 1int } else { 0int },
            final(self).ground_count == old(self).ground_count + if !s.on_wall && s.on_ground { 1int } else { 0int },
            final(self).aerial_count == old(self).aerial_count + if !s.on_wall && !s.on_ground { 1int } else { 0int },
            final(self).powerslide_active_ticks == old(self).powerslide_active_ticks + if s.powersliding { 1int } else { 0int },
            final(self).powerslide_count == old(self).powerslide_count
                + if s.powersliding && !old(self).last_powerslide { 1int } else { 0int },
            final(self).last_powerslide == s.powersliding,
            final(self).demos_taken == old(self).demos_taken
                + if s.demolished && !old(self).last_demolished { 1int } else { 0int },
            final(self).last_demolished == s.demolished,
    {
        self.sample_count = self.sample_count + 1;
        if s.boost == 0 {
            self.boost_at_0_count = self.boost_at_0_count + 1;
        }
        if s.boost == 100 {
            self.boost_at_100_count = self.boost_at_100_count + 1;
        }
        let b = boost_bucket(s.boost);
        self.boost_buckets[b] = self.boost_buckets[b] + 1;
        if s.boosting {
            self.boosting_count = self.boosting_count + 1;
        }
        if s.on_wall {
            self.wall_count = self.wall_count + 1;
        } else if s.on_ground {
            self.ground_count = self.ground_count + 1;
        } else {
            self.aerial_count = self.aerial_count + 1;
        }
        if s.powersliding {
            self.powerslide_active_ticks = self.powerslide_active_ticks + 1;
        }
        if s.powersliding && !self.last_powerslide {
            self.powerslide_count = self.powerslide_count + 1;
        }
        self.last_powerslide = s.powersliding;
        if s.demolished && !self.last_demolished {
            self.demos_taken = self.demos_taken + 1;
        }
        self.last_demolished = s.demolished;
    }
}

/// The match-level facts a recording keeps from the `UpdateState` ticks.
#[derive(Debug, Clone, PartialEq, Eq)]
pub struct MatchMeta {
    /// The arena, from the first tick that names one.
    pub arena: Option<String>,
    /// The largest match shape seen so far (players per team).
    pub team_size: u8,
    pub local_team_num: u8,
    pub blue_score: u32,
    pub orange_score: u32,
    pub last_seconds_remaining: i32,
    pub overtime: bool,
}

/// The score of the last `Teams[]` entry numbered `idx`, if any.
pub open spec fn last_team_score(teams: Seq<TeamTick>, idx: i64) -> Option<u32>
    decreases teams.len(),
{
    if teams.len() == 0 {
        None
    } else if teams.last().team_num == Some(idx) {
        Some(counter_of(teams.last().score))
    } else {
        last_team_score(teams.drop_last(), idx)
    }
}

/// A score after a tick: the tick's when its `Teams[]` has the team, else
/// the one held.
pub open spec fn score_after(held: u32, game: GameTick, idx: i64) -> u32 {
    match game.teams {
        Some(t) => match last_team_score(t@, idx) {
            Some(s) => s,
            None => held,
        },
        None => held,
    }
}

/// The arena after a tick: the first non-empty `Arena` seen sticks.
pub open spec fn arena_after(held: Option<Seq<char>>, game: Option<GameTick>) -> Option<Seq<char>> {
    match (held, game) {
        (None, Some(g)) => match g.arena {
            Some(a) => if a@.len() > 0 { Some(a@) } else { None },
            None => None,
        },
        _ => held,
    }
}

impl MatchMeta {
    /// The facts of a match that has just begun: nothing seen yet.
    pub fn new() -> (m: MatchMeta)
        ensures
            m.arena is None,
            m.team_size == 0 && m.local_team_num == 0,
            m.blue_score == 0 && m.orange_score == 0,
            m.last_seconds_remaining == 0 && !m.overtime,
    {
        MatchMeta {
            arena: None,
            team_size: 0,
            local_team_num: 0,
            blue_score: 0,
            orange_score: 0,
            last_seconds_remaining: 0,
            overtime: false,
        }
    }

    /// Fold one `UpdateState` tick in: the local team when it is known, the
    /// arena on first sight, the scores, clock and overtime flag of the
    /// `Game` block, and the match shape, which only grows.
    pub fn refresh(&mut self, players: &[PlayerTick], game: Option<&GameTick>, local_team_num: Option<u8>)
        ensures
            final(self).local_team_num == match local_team_num { Some(t) => t, None => old(self).local_team_num },
            opt_string_view(final(self).arena) == arena_after(
                opt_string_view(old(self).arena),
                match game { Some(g) => Some(*g), None => None },
            ),
            final(self).team_size as int == if team_size_of(players@) > old(self).team_size {
                team_size_of(players@)
            } else {
                old(self).team_size as int
            },
            match game {
                Some(g) => {
                    &&& final(self).blue_score == score_after(old(self).blue_score, *g, 0)
                    &&& final(self).orange_score == score_after(old(self).orange_score, *g, 1)
                    &&& final(self).last_seconds_remaining == match g.time_seconds { Some(n) => n as i32, None => 0i32 }
                    &&& final(self).overtime == match g.overtime { Some(b) => b, None => false }
                },
                None => {
                    &&& final(self).blue_score == old(self).blue_score
                    &&& final(self).orange_score == old(self).orange_score
                    &&& final(self).last_seconds_remaining == old(self).last_seconds_remaining
                    &&& final(self).overtime == old(self).overtime
                },
            },
    {
        if let Some(t) = local_team_num {
            self.local_team_num = t;
        }
        if let Some(g) = game {
            if self.arena.is_none() {
                if let Some(a) = &g.arena {
                    if chars_of(a.as_str()).len() > 0 {
                        self.arena = Some(a.clone());
                    }
                }
            }
            if let Some(teams) = &g.teams {
                let ghost before = *self;
                let ghost blue0 = self.blue_score;
                let ghost orange0 = self.orange_score;
                let mut k: usize = 0;
                while k < teams.len()
                    invariant
                        k <= teams@.len(),
                        self.arena == before.arena,
                        self.local_team_num == before.local_team_num,
                        self.team_size == before.team_size,
                        self.blue_score == match last_team_score(teams@.take(k as int), 0) { Some(s) => s, None => blue0 },
                        self.orange_score == match last_team_score(teams@.take(k as int), 1) { Some(s) => s, None => orange0 },
                    decreases teams@.len() - k,
                {
                    proof {
                        assert(teams@.take(k + 1).drop_last() =~= teams@.take(k as int));
                    }
                    let t = teams[k];
                    match t.team_num {
                        Some(idx) => {
                            if idx == 0 {
                                self.blue_score = json_u32(t.score);
                            } else if idx == 1 {
                                self.orange_score = json_u32(t.score);
                            }
                        },
                        None => {},
                    }
                    k += 1;
                }
                proof {
                    assert(teams@.take(teams@.len() as int) =~= teams@);
                }
            }
            self.last_seconds_remaining = match g.time_seconds {
                Some(n) => n as i32,
                None => 0,
            };
            self.overtime = match g.overtime {
                Some(b) => b,
                None => false,
            };
        }
        let computed = compute_team_size(players);
        if computed > self.team_size {
            self.team_size = computed;
        }
    }
}

/// The outcome facts of a finished match.
#[derive(Debug, Clone, Copy, PartialEq, Eq)]
pub struct MatchResult {
    /// The winner is the local team.
    pub is_win: bool,
    /// The match shape, at least 1.
    pub team_size: u8,
    /// Whole seconds from start to end (zero when the clock went backwards),
    /// truncated to 32 bits.
    pub duration_seconds: u32,
}

/// The whole seconds between two instants in ms, zero when `ended_ms` is
/// earlier, truncated to 32 bits.
pub open spec fn duration_of(started_ms: i64, ended_ms: i64) -> u32 {
    (if ended_ms - started_ms > 0 { (ended_ms - started_ms) / 1000 } else { 0 }) as u32
}

/// Settle a finished match: won when `winner_team_num` is the local team, the
/// shape raised to 1 when no player was ever counted, and its duration.
pub fn match_result(local_team_num: u8, team_size: u8, winner_team_num: Option<u8>, started_ms: i64, ended_ms: i64) -> (r: MatchResult)
    ensures
        r.is_win == (winner_team_num == Some(local_team_num)),
        r.team_size == if team_size == 0 { 1 } else { team_size },
        r.duration_seconds == duration_of(started_ms, ended_ms),
{
    let is_win = match winner_team_num {
        Some(w) => w == local_team_num,
        None => false,
    };
    let elapsed: i128 = ended_ms as i128 - started_ms as i128;
    let elapsed: i128 = if elapsed > 0 { elapsed } else { 0 };
    let secs: i128 = elapsed / 1000;
    MatchResult {
        is_win,
        team_size: if team_size == 0 { 1 } else { team_size },
        duration_seconds: secs as u32,
    }
}

/// A recorded player is the local player when its `PrimaryId` is the local
/// one, which must be known (non-empty).
pub fn is_local_player_id(primary_id: Option<&str>, local_primary_id: &str) -> (r: bool)
    ensures
        r == (local_primary_id@.len() > 0 && match primary_id {
            Some(p) => p@ == local_primary_id@,
            None => false,
        }),
{
    let local = chars_of(local_primary_id);
    match primary_id {
        Some(p) => {
            let pc = chars_of(p);
            local.len() > 0 && chars_eq(pc.as_slice(), local.as_slice())
        },
        None => false,
    }
}

/// Ball touches per team and crossbar hits of a match.
#[derive(Debug, Clone, Copy, PartialEq, Eq)]
pub struct BallEvents {
    pub crossbar_hits: u32,
    pub ball_hits_blue: u32,
    pub ball_hits_orange: u32,
}

pub open spec fn bump(v: u32) -> u32 {
    if v == u32::MAX { v } else { (v + 1) as u32 }
}

impl BallEvents {
    pub fn new() -> (e: BallEvents)
        ensures
            e.crossbar_hits == 0 && e.ball_hits_blue == 0 && e.ball_hits_orange == 0,
    {
        BallEvents { crossbar_hits: 0, ball_hits_blue: 0, ball_hits_orange: 0 }
    }

    /// Count a ball touch by team 0 (blue) or 1 (orange); other team numbers
    /// are ignored. Counters saturate.
    pub fn note_ball_hit(&mut self, team_num: u8)
        ensures
            final(self).ball_hits_blue == if team_num == 0 { bump(old(self).ball_hits_blue) } else { old(self).ball_hits_blue },
            final(self).ball_hits_orange == if team_num == 1 { bump(old(self).ball_hits_orange) } else { old(self).ball_hits_orange },
            final(self).crossbar_hits == old(self).crossbar_hits,
    {
        if team_num == 0 {
            self.ball_hits_blue = self.ball_hits_blue.saturating_add(1);
        } else if team_num == 1 {
            self.ball_hits_orange = self.ball_hits_orange.saturating_add(1);
        }
    }

    /// Count a crossbar hit (saturating).
    pub fn note_crossbar(&mut self)
        ensures
            final(self).crossbar_hits == bump(old(self).crossbar_hits),
            final(self).ball_hits_blue == old(self).ball_hits_blue,
            final(self).ball_hits_orange == old(self).ball_hits_orange,
    {
        self.crossbar_hits = self.crossbar_hits.saturating_add(1);
    }
}

/// A team number read from an event payload, truncated to 8 bits as
/// `n as u8` does.
pub open spec fn team_byte(v: Option<i64>) -> Option<u8> {
    match v {
        Some(n) => Some(n as u8),
        None => None,
    }
}

/// The name of a player named in an event payload.
pub open spec fn ref_name(r: Option<PlayerRef>) -> Option<Seq<char>> {
    match r {
        Some(p) => match p.name {
            Some(n) => Some(n@),
            None => None,
        },
        None => None,
    }
}

/// The team number of a player named in an event payload.
pub open spec fn ref_team(r: Option<PlayerRef>) -> Option<u8> {
    match r {
        Some(p) => team_byte(p.team_num),
        None => None,
    }
}

fn clone_opt(o: &Option<String>) -> (r: Option<String>)
    ensures
        match r {
            Some(s) => *o matches Some(t) && s@ == t@,
            None => o is None,
        },
{
    match o {
        Some(s) => Some(s.clone()),
        None => None,
    }
}

fn ref_name_exec(r: &Option<PlayerRef>) -> (n: Option<String>)
    ensures
        match n {
            Some(s) => ref_name(*r) == Some(s@),
            None => ref_name(*r) is None,
        },
{
    match r {
        Some(p) => clone_opt(&p.name),
        None => None,
    }
}

fn ref_team_exec(r: &Option<PlayerRef>) -> (t: Option<u8>)
    ensures
        t == ref_team(*r),
{
    match r {
        Some(p) => match p.team_num {
            Some(n) => Some(n as u8),
            None => None,
        },
        None => None,
    }
}

/// The statfeed log entry for an event: its position `ord` in the log and the
/// match clock when it happened; the event name is empty when missing.
pub fn statfeed_record(payload: &StatfeedTick, ord: u32, at_seconds_remaining: i32) -> (r: StatfeedRecord)
    ensures
        r.ord == ord,
        r.at_seconds_remaining == Some(at_seconds_remaining),
        r.event_name@ == str_or_empty(payload.event_name),
        match r.type_label {
            Some(t) => payload.type_label matches Some(u) && t@ == u@,
            None => payload.type_label is None,
        },
        match r.main_player {
            Some(n) => ref_name(payload.main_target) == Some(n@),
            None => ref_name(payload.main_target) is None,
        },
        r.main_team_num == ref_team(payload.main_target),
        match r.secondary_player {
            Some(n) => ref_name(payload.secondary_target) == Some(n@),
            None => ref_name(payload.secondary_target) is None,
        },
        r.secondary_team_num == ref_team(payload.secondary_target),
{
    let event_name = match &payload.event_name {
        Some(s) => s.clone(),
        None => String::new(),
    };
    StatfeedRecord {
        ord,
        at_seconds_remaining: Some(at_seconds_remaining),
        event_name,
        type_label: clone_opt(&payload.type_label),
        main_player: ref_name_exec(&payload.main_target),
        main_team_num: ref_team_exec(&payload.main_target),
        secondary_player: ref_name_exec(&payload.secondary_target),
        secondary_team_num: ref_team_exec(&payload.secondary_target),
    }
}

} // verus!
