use rl_stats_overlay::session::Session;
use rl_stats_overlay::stats_api::{GameTick, PlayerTick, TeamTick};
use rl_stats_overlay::ws_client::{
    classify_event, compute_team_size, drain_complete_envelopes, find_local_player, identity_update, jittered,
    jittered_with, on_match_ended, on_update_state, parse_match_stats, reconnect_backoff, relaunch_resets_session,
    settled_winner, should_emit_match_stats, u32_or_zero, EventKind,
};

fn player(name: &str, primary_id: &str, team: i64) -> PlayerTick {
    PlayerTick {
        name: Some(name.to_string()),
        primary_id: Some(primary_id.to_string()),
        team_num: Some(team),
        ..Default::default()
    }
}

fn players_fixture() -> Vec<PlayerTick> {
    vec![
        player("Alice", "Epic|aaa|0", 0),
        player("MyName", "Epic|me|0", 1),
        player("Bob", "Epic|bbb|0", 1),
    ]
}

fn team_only(team: i64) -> PlayerTick {
    PlayerTick { team_num: Some(team), ..Default::default() }
}

#[test]
fn finds_by_primary_id_first() {
    let players = players_fixture();
    let me = find_local_player(&players, "wrong-name", "Epic|me|0", &[]).unwrap();
    assert_eq!(players[me].name.as_deref(), Some("MyName"));
}

#[test]
fn falls_back_to_name_when_primary_id_empty() {
    let players = players_fixture();
    let me = find_local_player(&players, "myname", "", &[]).unwrap();
    assert_eq!(players[me].name.as_deref(), Some("MyName"));
}

#[test]
fn returns_none_when_neither_matches() {
    let players = players_fixture();
    assert!(find_local_player(&players, "ghost", "", &[]).is_none());
    assert!(find_local_player(&players, "", "", &[]).is_none());
}

#[test]
fn finds_by_platform_prefix_when_id_unknown() {
    let players = players_fixture();
    let candidates = vec!["Epic|me|".to_string()];
    let me = find_local_player(&players, "", "", &candidates).unwrap();
    assert_eq!(players[me].name.as_deref(), Some("MyName"));
}

#[test]
fn prefix_match_does_not_overreach() {
    let players = vec![player("Other", "Epic|abcdef|0", 0)];
    let candidates = vec!["Epic|ab|".to_string()];
    assert!(find_local_player(&players, "", "", &candidates).is_none());
}

#[test]
fn stored_id_without_match_falls_through_to_prefix_then_name() {
    let players = players_fixture();
    let candidates = vec!["Epic|bbb|".to_string()];
    let me = find_local_player(&players, "MyName", "Epic|gone|0", &candidates).unwrap();
    assert_eq!(players[me].name.as_deref(), Some("Bob"));
    let me = find_local_player(&players, "ALICE", "Epic|gone|0", &[]).unwrap();
    assert_eq!(players[me].name.as_deref(), Some("Alice"));
}

#[test]
fn drain_handles_split_utf8_across_chunks() {
    let envelope = r#"{"Event":"X","Data":"héllo"}"#.as_bytes();
    let split_at = envelope
        .iter()
        .position(|&b| b == 0xC3)
        .expect("test envelope must contain a multi-byte char");
    let (a, b) = envelope.split_at(split_at + 1);

    let mut buf: Vec<u8> = Vec::new();
    buf.extend_from_slice(a);
    // The partial envelope is kept for the next read, not thrown away.
    let first = drain_complete_envelopes(&mut buf);
    assert!(first.is_empty(), "expected no envelope on partial UTF-8");
    assert_eq!(buf, a);
    buf.extend_from_slice(b);
    let second = drain_complete_envelopes(&mut buf);
    assert_eq!(second.len(), 1, "envelope present");
    let v: serde_json::Value = serde_json::from_slice(&second[0]).expect("parses");
    assert_eq!(v.get("Event").and_then(|x| x.as_str()), Some("X"));
    assert!(buf.is_empty());
}

#[test]
fn drain_splits_back_to_back_envelopes_and_skips_garbage() {
    let mut buf = b"  {\"a\":1}{\"b\":2} x}{\"c\":3} {\"d\"".to_vec();
    let out = drain_complete_envelopes(&mut buf);
    assert_eq!(out, vec![b"{\"a\":1}".to_vec(), b"{\"b\":2}".to_vec(), b"{\"c\":3}".to_vec()]);
    assert_eq!(buf, b"{\"d\"".to_vec());
    let mut blank = b" \n\t ".to_vec();
    assert!(drain_complete_envelopes(&mut blank).is_empty());
    assert!(blank.is_empty());
    let mut junk = b"}}}".to_vec();
    assert!(drain_complete_envelopes(&mut junk).is_empty());
    assert!(junk.is_empty());
}

#[test]
fn jitter_stays_within_twenty_percent() {
    for _ in 0..1000 {
        let j = jittered(1000);
        assert!(j >= 800 && j <= 1200, "jitter out of range: {j}");
    }
}

#[test]
fn jitter_extremes() {
    assert_eq!(jittered_with(1000, 0), 800);
    assert_eq!(jittered_with(1000, 40), 1200);
    assert_eq!(jittered_with(1000, 20), 1000);
    assert_eq!(jittered_with(1000, 41), 800);
    assert_eq!(jittered_with(999, 0), 800);
    assert_eq!(jittered_with(0, 7), 0);
}

#[test]
fn backoff_grows_by_half_and_caps() {
    assert_eq!(reconnect_backoff(1000, false, 0), (1000, 1500));
    assert_eq!(reconnect_backoff(8000, false, 0), (8000, 10_000));
    assert_eq!(reconnect_backoff(10_000, false, 0), (10_000, 10_000));
    // A stable connection restarts the backoff.
    assert_eq!(reconnect_backoff(10_000, true, 5_000), (1000, 1500));
    assert_eq!(reconnect_backoff(10_000, true, 4_999), (10_000, 10_000));
}

#[test]
fn parse_match_stats_decodes_full_payload() {
    let players = vec![
        PlayerTick {
            name: Some("Alice".to_string()),
            primary_id: Some("Steam|11|0".to_string()),
            team_num: Some(0),
            goals: Some(2),
            saves: Some(1),
            shots: Some(4),
            assists: Some(1),
            score: Some(350),
            demos: None,
        },
        PlayerTick {
            name: Some("Bob".to_string()),
            primary_id: Some("Epic|22|0".to_string()),
            team_num: Some(1),
            goals: Some(1),
            saves: None,
            shots: Some(3),
            assists: Some(0),
            score: Some(200),
            demos: None,
        },
    ];
    let game = GameTick {
        arena: None,
        teams: Some(vec![
            TeamTick { team_num: Some(0), score: Some(2) },
            TeamTick { team_num: Some(1), score: Some(1) },
        ]),
        time_seconds: Some(137),
        overtime: Some(false),
    };
    let stats = parse_match_stats(&players, Some(&game));
    assert_eq!(stats.players.len(), 2);
    assert_eq!(stats.players[0].name, "Alice");
    assert_eq!(stats.players[0].team_num, 0);
    assert_eq!(stats.players[0].goals, 2);
    assert_eq!(stats.players[0].saves, 1);
    assert_eq!(stats.players[0].shots, 4);
    assert_eq!(stats.players[0].assists, 1);
    assert_eq!(stats.players[0].score, 350);
    assert_eq!(stats.players[1].saves, 0);
    assert_eq!(stats.team_scores, [2, 1]);
    assert_eq!(stats.time_seconds, 137);
    assert!(!stats.overtime);
}

#[test]
fn parse_match_stats_handles_missing_game_block() {
    let players = vec![PlayerTick {
        name: Some("Solo".to_string()),
        team_num: Some(0),
        goals: Some(1),
        ..Default::default()
    }];
    let stats = parse_match_stats(&players, None);
    assert_eq!(stats.players.len(), 1);
    assert_eq!(stats.players[0].goals, 1);
    assert_eq!(stats.team_scores, [0, 0]);
    assert_eq!(stats.time_seconds, 0);
    assert!(!stats.overtime);
}

#[test]
fn team_size_is_max_per_team() {
    let players = vec![team_only(0), team_only(0), team_only(0), team_only(1), team_only(1), team_only(1)];
    assert_eq!(compute_team_size(&players), 3);

    let duel = vec![team_only(0), team_only(1)];
    assert_eq!(compute_team_size(&duel), 1);

    assert_eq!(compute_team_size(&[]), 0);
    assert_eq!(compute_team_size(&[PlayerTick { name: Some("x".to_string()), ..Default::default() }]), 0);
}

#[test]
fn team_numbers_and_counters_out_of_range() {
    assert_eq!(u32_or_zero(Some(-5)), 0);
    assert_eq!(u32_or_zero(None), 0);
    assert_eq!(u32_or_zero(Some(7)), 7);
    let players = vec![PlayerTick { team_num: Some(300), goals: Some(-1), ..Default::default() }];
    let game = GameTick {
        arena: None,
        teams: Some(vec![
            TeamTick { team_num: Some(0), score: Some(1) },
            TeamTick { team_num: Some(0), score: Some(4) },
            TeamTick { team_num: Some(2), score: Some(9) },
        ]),
        time_seconds: Some(-3),
        overtime: Some(true),
    };
    let stats = parse_match_stats(&players, Some(&game));
    assert_eq!(stats.players[0].team_num, 0);
    assert_eq!(stats.players[0].goals, 0);
    assert_eq!(stats.team_scores, [4, 0]);
    assert_eq!(stats.time_seconds, 0);
    assert!(stats.overtime);
}

#[test]
fn identity_learning_rules() {
    let me = PlayerTick {
        name: Some("  NewName ".to_string()),
        primary_id: Some(" Epic|me|0".to_string()),
        team_num: Some(1),
        ..Default::default()
    };
    // First capture: id stored, empty name backfilled.
    let u = identity_update("", "", false, &me);
    assert_eq!(u.primary_id.as_deref(), Some("Epic|me|0"));
    assert_eq!(u.player_name.as_deref(), Some("NewName"));
    assert_eq!(u.local_team, Some(1));
    // A typed name is never overwritten in manual mode.
    let u = identity_update("Typed", "Epic|old|0", false, &me);
    assert_eq!(u.primary_id.as_deref(), Some("Epic|me|0"));
    assert!(u.player_name.is_none());
    // In auto mode an account switch carries the name along.
    let u = identity_update("OldName", "Epic|old|0", true, &me);
    assert_eq!(u.player_name.as_deref(), Some("NewName"));
    // Nothing changes when the id is already known.
    let u = identity_update("NewName", "Epic|me|0", true, &me);
    assert!(u.primary_id.is_none() && u.player_name.is_none());
}

#[test]
fn match_end_counting_rules() {
    let mut s = Session::default();
    let mut last: Option<String> = None;
    assert!(on_match_ended(&mut s, &mut last, Some(0), Some(0), 3, &[1, 2, 3, 4], "G1", 5));
    assert_eq!((s.wins, s.losses, s.streak), (1, 0, 1));
    assert_eq!(last.as_deref(), Some("G1"));
    // Replayed event: not counted again.
    assert!(!on_match_ended(&mut s, &mut last, Some(0), Some(1), 3, &[1, 2, 3, 4], "G1", 6));
    assert_eq!((s.wins, s.losses), (1, 0));
    // Excluded team size.
    assert!(!on_match_ended(&mut s, &mut last, Some(0), Some(1), 2, &[3], "G2", 6));
    // Unknown shape counts; no guid means no dedupe memory.
    assert!(on_match_ended(&mut s, &mut last, Some(0), Some(1), 0, &[], "", 7));
    assert_eq!((s.wins, s.losses, s.streak), (1, 1, -1));
    assert_eq!(last.as_deref(), Some("G1"));
    // Unknown local team or winner: ignored.
    assert!(!on_match_ended(&mut s, &mut last, None, Some(1), 3, &[3], "G3", 8));
    assert!(!on_match_ended(&mut s, &mut last, Some(1), None, 3, &[3], "G3", 8));
    assert_eq!(s.last_update, 7);
}

#[test]
fn update_state_tick_outcome() {
    let players = players_fixture();
    let game = GameTick {
        arena: Some("Stadium_P".to_string()),
        teams: Some(vec![TeamTick { team_num: Some(0), score: Some(2) }, TeamTick { team_num: Some(1), score: Some(1) }]),
        time_seconds: Some(120),
        overtime: Some(false),
    };
    // Manual mode, nothing stored yet, the name typed by the user.
    let out = on_update_state(&players, Some(&game), "MyName", "", &[]);
    assert_eq!(out.team_size, Some(2));
    assert_eq!(out.stats.players.len(), 3);
    assert_eq!(out.stats.team_scores, [2, 1]);
    assert_eq!(out.stats.time_seconds, 120);
    let id = out.identity.expect("local player found by name");
    assert_eq!(id.primary_id.as_deref(), Some("Epic|me|0"));
    assert_eq!(id.player_name, None);
    assert_eq!(id.local_team, Some(1));

    // Nobody to recognise and no team numbers: no identity, no match shape.
    let anon = vec![PlayerTick { name: Some("X".to_string()), ..Default::default() }];
    let out = on_update_state(&anon, None, "", "", &[]);
    assert_eq!(out.team_size, None);
    assert!(out.identity.is_none());
    assert_eq!(out.stats.team_scores, [0, 0]);
}

#[test]
fn update_state_auto_mode_follows_account_switch() {
    let players = vec![player("NewPseudo", "Steam|76561198000000002|0", 0)];
    let candidates = vec!["Steam|76561198000000002|".to_string()];
    let out = on_update_state(&players, None, "OldPseudo", "Steam|76561198000000001|0", &candidates);
    let id = out.identity.expect("found by platform prefix");
    assert_eq!(id.primary_id.as_deref(), Some("Steam|76561198000000002|0"));
    assert_eq!(id.player_name.as_deref(), Some("NewPseudo"));
    assert_eq!(out.team_size, Some(1));
}

#[test]
fn events_are_classified_by_exact_name() {
    assert_eq!(classify_event("UpdateState"), EventKind::UpdateState);
    assert_eq!(classify_event("MatchEnded"), EventKind::MatchEnded);
    assert_eq!(classify_event("MatchInitialized"), EventKind::MatchStarted);
    assert_eq!(classify_event("MatchCreated"), EventKind::MatchStarted);
    assert_eq!(classify_event("MatchDestroyed"), EventKind::MatchDestroyed);
    assert_eq!(classify_event("GoalScored"), EventKind::GoalScored);
    assert_eq!(classify_event("updatestate"), EventKind::Other);
    assert_eq!(classify_event("BallHit"), EventKind::Other);
}

#[test]
fn live_stats_pushes_are_debounced() {
    assert!(should_emit_match_stats(false, None, false, 0));
    assert!(should_emit_match_stats(true, Some(1000), true, 1000));
    assert!(!should_emit_match_stats(false, Some(1000), false, 1249));
    assert!(should_emit_match_stats(false, Some(1000), false, 1250));
    assert!(!should_emit_match_stats(false, Some(1000), true, 5000));
    assert!(!should_emit_match_stats(false, Some(1000), false, 999));
}

#[test]
fn relaunch_after_five_minutes_resets() {
    assert!(!relaunch_resets_session(299_999));
    assert!(relaunch_resets_session(300_000));
    assert!(relaunch_resets_session(3_600_000));
}

#[test]
fn winner_falls_back_to_the_last_score() {
    assert_eq!(settled_winner(Some(1), [5, 0]), Some(1));
    assert_eq!(settled_winner(None, [3, 1]), Some(0));
    assert_eq!(settled_winner(None, [1, 2]), Some(1));
    assert_eq!(settled_winner(None, [2, 2]), None);
}
