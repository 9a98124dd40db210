use rl_stats_overlay::commands::{
    clamp_hud_scale_percent, clean_player_name, clean_team_sizes, clean_theme_name, effective_primary_id,
    hud_size_from_edit, hud_visible_after_auto_hide_toggle, launcher_action, session_from_edit, snap_hud_position,
    validate_language, LauncherAction,
};
use rl_stats_overlay::http_server::{inject_base_href, sanitize_theme, user_theme_path};
use rl_stats_overlay::settings::{default_language, default_team_sizes, default_theme};
use rl_stats_overlay::theme_manifest::{bundled_theme_id, default_manifest_version};

#[test]
fn languages() {
    assert!(validate_language("auto").is_ok());
    assert!(validate_language("fr").is_ok());
    assert!(validate_language("en").is_ok());
    assert!(validate_language("de").is_err());
    assert!(validate_language("EN").is_err());
}

#[test]
fn names_and_themes() {
    assert_eq!(clean_player_name("  Moi  ").unwrap(), "Moi");
    assert!(clean_player_name(" \t ").is_err());
    assert_eq!(clean_theme_name(" my-theme_2 ").unwrap(), "my-theme_2");
    assert!(clean_theme_name("../etc").is_err());
    assert!(clean_theme_name("").is_err());
    assert_eq!(sanitize_theme("circle"), "circle");
    assert_eq!(sanitize_theme("min-imal_1"), "min-imal_1");
    assert_eq!(sanitize_theme("../x"), "circle");
    assert_eq!(sanitize_theme(""), "circle");
}

#[test]
fn team_size_filter_and_session_edit() {
    assert_eq!(clean_team_sizes(&[0, 3, 5, 1, 4, 9, 2]), vec![3, 1, 4, 2]);
    assert!(clean_team_sizes(&[]).is_empty());
    let s = session_from_edit(-3, 5_000_000_000, -3_000_000_000, 7, 2, 42);
    assert_eq!((s.wins, s.losses, s.streak, s.best_win_streak, s.best_loss_streak, s.last_update),
        (0, u32::MAX, i32::MIN, 7, 2, 42));
}

#[test]
fn profile_resolution() {
    assert_eq!(effective_primary_id(Some("Steam|1|0".to_string()), "Epic|2|0").unwrap(), "Steam|1|0");
    assert_eq!(effective_primary_id(Some(String::new()), "Epic|2|0").unwrap(), "Epic|2|0");
    assert_eq!(effective_primary_id(None, "Epic|2|0").unwrap(), "Epic|2|0");
    assert!(effective_primary_id(None, "").is_err());
}

#[test]
fn hud_geometry() {
    assert_eq!(clamp_hud_scale_percent(10), 25);
    assert_eq!(clamp_hud_scale_percent(120), 120);
    assert_eq!(clamp_hud_scale_percent(1000), 400);
    assert_eq!(hud_size_from_edit(Some(10), None, 300, 20), (80, 60));
    assert_eq!(hud_size_from_edit(None, Some(500), 300, 20), (300, 500));
    assert_eq!(snap_hud_position("top-left", 0, 0, 1920, 1080, 306, 263, 16), Ok((16, 16)));
    assert_eq!(snap_hud_position("center", 0, 0, 1920, 1080, 306, 263, 16), Ok((807, 408)));
    assert_eq!(snap_hud_position("bottom-right", 1920, 0, 1920, 1080, 306, 263, 16), Ok((1920 + 1598, 801)));
    // A window larger than the monitor is pinned to its start.
    assert_eq!(snap_hud_position("bottom-center", 0, 0, 100, 100, 300, 300, 16), Ok((0, 0)));
    assert!(snap_hud_position("nowhere", 0, 0, 1920, 1080, 306, 263, 16).is_err());
}

#[test]
fn overlay_paths_and_base_href() {
    assert_eq!(user_theme_path("themes/mine/boost.html").as_deref(), Some("mine/boost.html"));
    assert!(user_theme_path("themes/../secret").is_none());
    assert!(user_theme_path("themes/a\\b").is_none());
    assert!(user_theme_path("shared/ws-client.js").is_none());
    let page = inject_base_href("<html><head><title>x</title></head><head>", "circle");
    assert_eq!(page, "<html><head>\n  <base href=\"/overlays/themes/circle/\"><title>x</title></head><head>");
    assert_eq!(inject_base_href("<html></html>", "circle"), "<html></html>");
}

#[test]
fn defaults_and_bundled_manifests() {
    assert_eq!(default_team_sizes(), vec![1, 2, 3, 4]);
    assert_eq!(default_theme(), "circle");
    assert_eq!(default_language(), "auto");
    assert_eq!(default_manifest_version(), 1);
    assert_eq!(bundled_theme_id("themes/circle/theme.json").as_deref(), Some("circle"));
    assert_eq!(bundled_theme_id("minimal/theme.json").as_deref(), Some("minimal"));
    assert!(bundled_theme_id("themes/_template/theme.json").is_none());
    assert!(bundled_theme_id("themes/circle/boost.html").is_none());
    assert!(bundled_theme_id("themes/circle/sub/theme.json").is_none());
    assert!(bundled_theme_id("themes/circle").is_none());
}

#[test]
fn window_visibility_decisions() {
    assert_eq!(launcher_action(false, false), LauncherAction::Destroy);
    assert_eq!(launcher_action(false, true), LauncherAction::Destroy);
    assert_eq!(launcher_action(true, true), LauncherAction::Hide);
    assert_eq!(launcher_action(true, false), LauncherAction::Show);
    assert!(hud_visible_after_auto_hide_toggle(true, true, false));
    assert!(!hud_visible_after_auto_hide_toggle(true, false, true));
    assert!(hud_visible_after_auto_hide_toggle(false, false, true));
    assert!(!hud_visible_after_auto_hide_toggle(false, true, false));
}
