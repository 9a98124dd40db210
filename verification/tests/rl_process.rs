use rl_stats_overlay::rl_process::{decode_szexefile, rl_process_alive_via};

#[test]
fn matches_exact_rocket_league_exe() {
    let snapshot = vec!["explorer.exe", "chrome.exe", "RocketLeague.exe", "code.exe"];
    assert!(rl_process_alive_via(&snapshot));
}

#[test]
fn matches_case_insensitively() {
    let snapshot = vec!["rocketleague.exe"];
    assert!(rl_process_alive_via(&snapshot));
    let snapshot = vec!["ROCKETLEAGUE.EXE"];
    assert!(rl_process_alive_via(&snapshot));
}

#[test]
fn does_not_match_companion_or_substring_processes() {
    let snapshot = vec![
        "RocketLeague_BE.exe",
        "RocketLeagueOSS.exe",
        "MyRocketLeague.exe",
        "rocketleague",
        "RocketLeague.exe.bak",
    ];
    assert!(!rl_process_alive_via(&snapshot));
}

#[test]
fn empty_snapshot_returns_false() {
    let snapshot: Vec<&str> = vec![];
    assert!(!rl_process_alive_via(&snapshot));
}

#[test]
fn szexefile_stops_at_nul_and_replaces_lone_surrogates() {
    let mut buf: Vec<u16> = "RocketLeague.exe".encode_utf16().collect();
    buf.push(0);
    buf.extend("garbage".encode_utf16());
    assert_eq!(decode_szexefile(&buf), "RocketLeague.exe");
    let no_nul: Vec<u16> = "a.exe".encode_utf16().collect();
    assert_eq!(decode_szexefile(&no_nul), "a.exe");
    let lone = vec![0x61u16, 0xD800, 0x62];
    assert_eq!(decode_szexefile(&lone), "a\u{FFFD}b");
    let pair: Vec<u16> = "é😀".encode_utf16().collect();
    assert_eq!(decode_szexefile(&pair), "é😀");
}
