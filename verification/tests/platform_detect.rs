use rl_stats_overlay::platform_detect::{
    epic_account_ids_in, is_epic_account_id, is_steamid64, local_platform_candidates, parse_most_recent_steamid64,
    parse_quoted_tokens,
};

const TWO_ACCOUNT_VDF: &str = r#"
"users"
{
    "76561198000000001"
    {
        "AccountName"       "old"
        "PersonaName"       "Old"
        "RememberPassword"  "1"
        "MostRecent"        "0"
        "Timestamp"         "1500000000"
    }
    "76561198000000002"
    {
        "AccountName"       "new"
        "PersonaName"       "New"
        "RememberPassword"  "1"
        "MostRecent"        "1"
        "Timestamp"         "1700000000"
    }
}
"#;

#[test]
fn parses_steam_id_from_loginusers_vdf() {
    let id = parse_most_recent_steamid64(TWO_ACCOUNT_VDF);
    assert_eq!(id.as_deref(), Some("76561198000000002"));
}

#[test]
fn picks_most_recent_when_multiple_blocks() {
    let id = parse_most_recent_steamid64(TWO_ACCOUNT_VDF);
    assert_eq!(id.as_deref(), Some("76561198000000002"));
}

#[test]
fn returns_none_on_malformed_vdf() {
    let truncated = r#"
"users"
{
    "76561198000000002"
    {
        "MostRecent"   "1"
"#;
    assert!(parse_most_recent_steamid64(truncated).is_none());
}

#[test]
fn returns_none_when_no_most_recent() {
    let no_recent = r#"
"users"
{
    "76561198000000001"
    {
        "AccountName"   "a"
        "MostRecent"    "0"
    }
    "76561198000000002"
    {
        "AccountName"   "b"
        "MostRecent"    "0"
    }
}
"#;
    assert!(parse_most_recent_steamid64(no_recent).is_none());
}

#[test]
fn ignores_non_steamid64_keys() {
    let bogus = r#"
"users"
{
    "12345"
    {
        "MostRecent"   "1"
    }
}
"#;
    assert!(parse_most_recent_steamid64(bogus).is_none());
}

#[test]
fn epic_filename_extraction() {
    // The regular files of a synthetic Saved\Data folder (the sub-folder is
    // not a file and never reaches the filter).
    let names: Vec<String> = vec![
        "aaaaaaaaaaaaaaaaaaaaaaaaaaaaaaaa.dat".to_string(),
        "bbbbbbbbbbbbbbbbbbbbbbbbbbbbbbbb.dat".to_string(),
        "OC_cccccccccccccccccccccccccccccccc.dat".to_string(),
        "AAAAAAAAAAAAAAAAAAAAAAAAAAAAAAAA.dat".to_string(),
        "zzzzzzzzzzzzzzzzzzzzzzzzzzzzzzzz.bak".to_string(),
    ];
    let mut ids = epic_account_ids_in(&names);
    ids.sort();
    assert_eq!(
        ids,
        vec![
            "aaaaaaaaaaaaaaaaaaaaaaaaaaaaaaaa".to_string(),
            "bbbbbbbbbbbbbbbbbbbbbbbbbbbbbbbb".to_string(),
        ]
    );
}

#[test]
fn last_most_recent_claim_wins() {
    let vdf = "\"users\"\n{\n\"76561198000000001\"\n{\n\"MostRecent\" \"1\"\n}\n\"76561198000000002\"\n{\n\"MostRecent\" \"1\"\n}\n}\n";
    assert_eq!(parse_most_recent_steamid64(vdf).as_deref(), Some("76561198000000002"));
}

#[test]
fn crlf_lines_and_extra_closing_brace() {
    let vdf = "\"users\"\r\n{\r\n\t\"76561198000000009\"\r\n\t{\r\n\t\t\"MostRecent\"\t\t\"1\"\r\n\t}\r\n}\r\n";
    assert_eq!(parse_most_recent_steamid64(vdf).as_deref(), Some("76561198000000009"));
    let unbalanced = "\"users\"\n{\n}\n}\n";
    assert!(parse_most_recent_steamid64(unbalanced).is_none());
    assert!(parse_most_recent_steamid64("").is_none());
}

#[test]
fn quoted_tokens_of_lines() {
    assert_eq!(parse_quoted_tokens(r#""MostRecent"   "1""#), vec!["MostRecent".to_string(), "1".to_string()]);
    assert_eq!(parse_quoted_tokens(r#"  "users""#), vec!["users".to_string()]);
    assert_eq!(parse_quoted_tokens(r#""a\"b" "c""#), vec![r#"a\"b"#.to_string(), "c".to_string()]);
    assert!(parse_quoted_tokens(r#""unterminated"#).is_empty());
    assert!(parse_quoted_tokens("{").is_empty());
}

#[test]
fn identifier_shapes() {
    assert!(is_steamid64("76561198000000002"));
    assert!(!is_steamid64("7656119800000000"));
    assert!(!is_steamid64("86561198000000002"));
    assert!(!is_steamid64("7656119800000000x"));
    assert!(is_epic_account_id("0123456789abcdef0123456789abcdef"));
    assert!(!is_epic_account_id("0123456789ABCDEF0123456789abcdef"));
    assert!(!is_epic_account_id("0123456789abcdef0123456789abcde"));
}

#[test]
fn candidates_are_pipe_terminated_prefixes() {
    let out = local_platform_candidates(
        Some("76561198000000002".to_string()),
        vec!["aaaaaaaaaaaaaaaaaaaaaaaaaaaaaaaa".to_string()],
    );
    assert_eq!(
        out,
        vec!["Steam|76561198000000002|".to_string(), "Epic|aaaaaaaaaaaaaaaaaaaaaaaaaaaaaaaa|".to_string()]
    );
    assert!(local_platform_candidates(None, vec![]).is_empty());
}
