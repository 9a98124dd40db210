use rl_stats_overlay::theme_manifest::{is_user_theme_folder, merge_themes, sort_by_label, ThemeCandidate, ThemeOrigin};

fn cand(name: &str, ok: bool) -> ThemeCandidate {
    ThemeCandidate { name: name.to_string(), manifest_ok: ok }
}

#[test]
fn user_theme_folder_names() {
    assert!(is_user_theme_folder("neon"));
    assert!(!is_user_theme_folder(""));
    assert!(!is_user_theme_folder(".git"));
    assert!(!is_user_theme_folder("_template"));
}

#[test]
fn user_themes_win_and_ids_stay_unique() {
    let user = vec![cand("circle", true), cand(".hidden", true), cand("broken", false), cand("circle", true)];
    let bundled = vec![
        cand("themes/circle/theme.json", true),
        cand("themes/minimal/theme.json", true),
        cand("themes/minimal/theme.json", true),
        cand("themes/broken/theme.json", true),
        cand("themes/_template/theme.json", true),
        cand("themes/bad/theme.json", false),
        cand("themes/minimal/boost.html", true),
    ];
    let picks = merge_themes(&user, &bundled);
    let got: Vec<(ThemeOrigin, usize, &str)> = picks.iter().map(|p| (p.origin, p.index, p.id.as_str())).collect();
    assert_eq!(
        got,
        vec![
            (ThemeOrigin::User, 0, "circle"),
            (ThemeOrigin::Bundled, 1, "minimal"),
            (ThemeOrigin::Bundled, 3, "broken"),
        ]
    );
}

#[test]
fn themes_sort_stably_by_label() {
    let labels: Vec<String> = ["Neon", "Circle", "Minimal", "Circle", "Éclair", "Z"].iter().map(|s| s.to_string()).collect();
    assert_eq!(sort_by_label(&labels), vec![1, 3, 2, 0, 5, 4]);
    let mut expected: Vec<usize> = (0..labels.len()).collect();
    expected.sort_by(|a, b| labels[*a].cmp(&labels[*b]));
    assert_eq!(sort_by_label(&labels), expected);
    assert!(sort_by_label(&[]).is_empty());
}
