use rl_stats_overlay::match_recorder::{
    boost_bucket, is_local_player_id, json_u8, json_u32, match_result, statfeed_record, BallEvents, MatchMeta,
    TickCounters, TickSample,
};
use rl_stats_overlay::stats_api::{GameTick, PlayerRef, PlayerTick, StatfeedTick, TeamTick};

#[test]
fn ball_hits_and_crossbar_counted() {
    let mut m = BallEvents::new();
    m.note_ball_hit(0);
    m.note_ball_hit(0);
    m.note_ball_hit(1);
    m.note_crossbar();
    assert_eq!(m.ball_hits_blue, 2);
    assert_eq!(m.ball_hits_orange, 1);
    assert_eq!(m.crossbar_hits, 1);
}

#[test]
fn ball_hits_ignore_other_teams_and_saturate() {
    let mut m = BallEvents { crossbar_hits: u32::MAX, ball_hits_blue: 0, ball_hits_orange: 0 };
    m.note_ball_hit(2);
    m.note_crossbar();
    assert_eq!((m.ball_hits_blue, m.ball_hits_orange, m.crossbar_hits), (0, 0, u32::MAX));
}

fn tick(boost: u8, boosting: bool, on_ground: bool, on_wall: bool, powersliding: bool, demolished: bool) -> TickSample {
    TickSample { boost, boosting, on_ground, on_wall, powersliding, demolished }
}

#[test]
fn tick_counters_partition_samples() {
    let mut c = TickCounters::new();
    c.sample(tick(50, true, true, false, false, false));
    c.sample(tick(20, true, false, false, false, false));
    c.sample(tick(0, false, true, false, true, false));
    c.sample(tick(100, false, true, true, true, true));
    c.sample(tick(75, false, true, false, false, true));
    c.sample(tick(74, false, true, false, true, false));
    assert_eq!(c.sample_count, 6);
    assert_eq!(c.boost_buckets, [2, 0, 2, 2]);
    assert_eq!((c.boost_at_0_count, c.boost_at_100_count, c.boosting_count), (1, 1, 2));
    assert_eq!((c.wall_count, c.ground_count, c.aerial_count), (1, 4, 1));
    assert_eq!((c.powerslide_active_ticks, c.powerslide_count), (3, 2));
    assert_eq!(c.demos_taken, 1);
}

#[test]
fn payload_readers() {
    assert_eq!(json_u8(Some(150)), 100);
    assert_eq!(json_u8(Some(-1)), 0);
    assert_eq!(json_u8(Some(42)), 42);
    assert_eq!(json_u8(None), 0);
    assert_eq!(json_u32(Some(-9)), 0);
    assert_eq!(json_u32(Some(9)), 9);
    assert_eq!((boost_bucket(24), boost_bucket(25), boost_bucket(74), boost_bucket(75)), (0, 1, 2, 3));
}

#[test]
fn statfeed_entry() {
    let payload = StatfeedTick {
        event_name: Some("Save".to_string()),
        type_label: Some("Save".to_string()),
        main_target: Some(PlayerRef { name: Some("MoiPseudo".to_string()), team_num: Some(0) }),
        secondary_target: None,
    };
    let r = statfeed_record(&payload, 3, 265);
    assert_eq!(r.ord, 3);
    assert_eq!(r.at_seconds_remaining, Some(265));
    assert_eq!(r.event_name, "Save");
    assert_eq!(r.type_label.as_deref(), Some("Save"));
    assert_eq!(r.main_player.as_deref(), Some("MoiPseudo"));
    assert_eq!(r.main_team_num, Some(0));
    assert!(r.secondary_player.is_none() && r.secondary_team_num.is_none());
    let empty = statfeed_record(&StatfeedTick::default(), 0, -1);
    assert_eq!(empty.event_name, "");
}

fn on_team(team: i64) -> PlayerTick {
    PlayerTick { team_num: Some(team), ..Default::default() }
}

#[test]
fn match_meta_folds_ticks() {
    let mut m = MatchMeta::new();
    let game = GameTick {
        arena: Some("".to_string()),
        teams: Some(vec![TeamTick { team_num: Some(1), score: Some(3) }]),
        time_seconds: Some(200),
        overtime: None,
    };
    m.refresh(&[on_team(0), on_team(1), on_team(1)], Some(&game), Some(1));
    assert_eq!(m.arena, None);
    assert_eq!(m.team_size, 2);
    assert_eq!(m.local_team_num, 1);
    assert_eq!(m.blue_score, 0);
    assert_eq!(m.orange_score, 3);
    assert_eq!(m.last_seconds_remaining, 200);
    assert!(!m.overtime);

    let game = GameTick {
        arena: Some("Stadium_P".to_string()),
        teams: Some(vec![TeamTick { team_num: Some(0), score: Some(1) }, TeamTick { team_num: Some(0), score: Some(-4) }]),
        time_seconds: None,
        overtime: Some(true),
    };
    // A player leaving does not shrink the shape; an unknown local team keeps the held one.
    m.refresh(&[on_team(0)], Some(&game), None);
    assert_eq!(m.arena.as_deref(), Some("Stadium_P"));
    assert_eq!(m.team_size, 2);
    assert_eq!(m.local_team_num, 1);
    assert_eq!(m.blue_score, 0);
    assert_eq!(m.orange_score, 3);
    assert_eq!(m.last_seconds_remaining, 0);
    assert!(m.overtime);

    // The first arena sticks; a tick without a game block keeps the scores.
    let game = GameTick { arena: Some("Other".to_string()), ..Default::default() };
    m.refresh(&[on_team(0), on_team(0), on_team(0)], Some(&game), None);
    assert_eq!(m.arena.as_deref(), Some("Stadium_P"));
    assert_eq!(m.team_size, 3);
    m.refresh(&[], None, Some(0));
    assert_eq!(m.orange_score, 3);
    assert_eq!(m.local_team_num, 0);
}

#[test]
fn finished_match_outcome() {
    let r = match_result(1, 3, Some(1), 1_000, 301_999);
    assert!(r.is_win);
    assert_eq!(r.team_size, 3);
    assert_eq!(r.duration_seconds, 300);
    let r = match_result(0, 0, Some(1), 5_000, 1_000);
    assert!(!r.is_win);
    assert_eq!(r.team_size, 1);
    assert_eq!(r.duration_seconds, 0);
    assert!(!match_result(0, 2, None, 0, 0).is_win);
    assert_eq!(match_result(0, 2, None, i64::MIN, i64::MAX).duration_seconds, (u64::MAX / 1000) as u32);
}

#[test]
fn local_player_needs_a_known_matching_id() {
    assert!(is_local_player_id(Some("Epic|me|0"), "Epic|me|0"));
    assert!(!is_local_player_id(Some("Epic|me|0"), "Epic|other|0"));
    assert!(!is_local_player_id(Some(""), ""));
    assert!(!is_local_player_id(None, "Epic|me|0"));
}
