use ini::Ini;
use rl_stats_overlay::ini_patcher::{
    ini_already_patched, is_rocket_league_manifest, parse_steam_library_folders, patch_conf, resolve_ini_path, IniTarget,
};

#[test]
fn ini_targets() {
    assert_eq!(resolve_ini_path(true, Some("rocketleague")), Ok(IniTarget::InsideFolder));
    assert_eq!(resolve_ini_path(false, Some("defaultstatsapi.INI")), Ok(IniTarget::AsGiven));
    assert!(resolve_ini_path(false, Some("DefaultStatsAPI.ini.bak")).is_err());
    assert!(resolve_ini_path(false, None).is_err());
}

#[test]
fn patch_needed_unless_rate_port_and_no_legacy() {
    assert!(ini_already_patched(Some("30"), Some("49123"), false));
    assert!(ini_already_patched(Some(" +30 "), Some("49123\r"), false));
    assert!(!ini_already_patched(Some("30"), Some("49123"), true));
    assert!(!ini_already_patched(Some("0"), Some("49123"), false));
    assert!(!ini_already_patched(None, Some("49123"), false));
    assert!(!ini_already_patched(Some("30"), Some("149123"), false));
    assert!(!ini_already_patched(Some("3 0"), Some("49123"), false));
    assert!(!ini_already_patched(Some("-30"), Some("49123"), false));
    assert!(!ini_already_patched(Some("+"), Some("49123"), false));
}

#[test]
fn library_folders_are_extracted() {
    let vdf = "\"libraryfolders\"\n{\n\t\"0\"\n\t{\n\t\t\"path\"\t\t\"C:\\\\Program Files (x86)\\\\Steam\"\n\t\t\"label\"\t\t\"\"\n\t}\n\t\"1\"\n\t{\n\t\t\"path\"\t\t\"D:\\\\Games\"\n\t}\n}\n";
    assert_eq!(
        parse_steam_library_folders(vdf),
        vec!["C:\\Program Files (x86)\\Steam".to_string(), "D:\\Games".to_string()]
    );
    assert!(parse_steam_library_folders("\"path\" \"unterminated\n").is_empty());
}

const SECTION: &str = "TAGame.MatchStatsExporter_TA";
const LEGACY: &str = "/Script/TAGame.StatsAPIClient";

#[test]
fn patch_conf_sets_exporter_and_drops_legacy() {
    let mut conf = Ini::load_from_str(
        "[/Script/TAGame.StatsAPIClient]\nPacketSendRate=60\n[TAGame.MatchStatsExporter_TA]\nPacketSendRate=0\nPort=49123\nOther=x\n",
    )
    .unwrap();
    assert!(!patch_conf(&mut conf));
    assert_eq!(conf.get_from(Some(SECTION), "PacketSendRate"), Some("30"));
    assert_eq!(conf.get_from(Some(SECTION), "Port"), Some("49123"));
    assert_eq!(conf.get_from(Some(SECTION), "Other"), Some("x"));
    assert!(conf.section(Some(LEGACY)).is_none());
    // A second pass finds nothing to do.
    assert!(patch_conf(&mut conf));
    assert_eq!(conf.get_from(Some(SECTION), "PacketSendRate"), Some("30"));
}

#[test]
fn patch_conf_leaves_a_correct_file_alone() {
    let mut conf = Ini::load_from_str("[TAGame.MatchStatsExporter_TA]\nPacketSendRate=+30\nPort=49123\n").unwrap();
    assert!(patch_conf(&mut conf));
    assert_eq!(conf.get_from(Some(SECTION), "PacketSendRate"), Some("+30"));
}

#[test]
fn patch_conf_fills_an_empty_document() {
    let mut conf = Ini::new();
    assert!(!patch_conf(&mut conf));
    assert_eq!(conf.get_from(Some(SECTION), "PacketSendRate"), Some("30"));
    assert_eq!(conf.get_from(Some(SECTION), "Port"), Some("49123"));
    let mut buf = Vec::new();
    conf.write_to(&mut buf).unwrap();
    let text = String::from_utf8(buf).unwrap();
    assert!(text.contains("[TAGame.MatchStatsExporter_TA]"));
    assert!(text.contains("PacketSendRate=30"));
    assert!(text.contains("Port=49123"));
}

#[test]
fn epic_manifest_recognition() {
    assert!(is_rocket_league_manifest("Rocket League", ""));
    assert!(is_rocket_league_manifest("ROCKET LEAGUE", "x"));
    assert!(is_rocket_league_manifest("Fortnite", "sugar"));
    assert!(!is_rocket_league_manifest("Rocket League Sideswipe", "Sugar2"));
    assert!(!is_rocket_league_manifest("", ""));
}
