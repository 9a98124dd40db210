//! Rules for enabling Rocket League's Stats API through `DefaultStatsAPI.ini`:
//! which file a user's pick designates, and whether an existing file already
//! carries the wanted settings. Reading, backing up and writing the file is
//! the app's part.

use vstd::prelude::*;
use crate::text::{
    chars_eq, chars_eq_ignore_ascii_case, chars_of, chars_starts_with, copy_range, eq_ignore_ascii_case, find_char_from,
    find_from, is_ascii_digit, lemma_find_from_bounds, lines, lines_from, starts_with, string_from_chars, trim,
    trim_end, trim_range, trim_start,
};
use std::path::PathBuf;
use ini::Ini;

verus! {

/// Packet rate the exporter section must carry for the listener to open.
pub const TARGET_PACKET_RATE: u32 = 30;
/// Port the exporter section must carry.
pub const TARGET_PORT: u16 = 49123;

/// Where the patched ini lives relative to what the user picked.
#[derive(Debug, Clone, Copy, PartialEq, Eq)]
pub enum IniTarget {
    /// A folder was picked: the ini is `TAGame\Config\DefaultStatsAPI.ini` inside it.
    InsideFolder,
    /// The ini file itself was picked.
    AsGiven,
}

/// The pick is neither a folder nor a file named `DefaultStatsAPI.ini`.
#[derive(Debug, Clone, Copy, PartialEq, Eq)]
pub struct NotAnIniTarget;

pub open spec fn ini_file_name() -> Seq<char> {
    seq!['D', 'e', 'f', 'a', 'u', 'l', 't', 'S', 't', 'a', 't', 's', 'A', 'P', 'I', '.', 'i', 'n', 'i']
}

/// Decide which ini a user-selected path designates: a folder means the ini
/// nested inside it; a file counts when its name is `DefaultStatsAPI.ini` up to
/// ASCII case; anything else is refused.
pub fn resolve_ini_path(is_dir: bool, file_name: Option<&str>) -> (r: Result<IniTarget, NotAnIniTarget>)
    ensures
        is_dir ==> r == Ok::<IniTarget, NotAnIniTarget>(IniTarget::InsideFolder),
        !is_dir ==> (r == Ok::<IniTarget, NotAnIniTarget>(IniTarget::AsGiven) <==> (file_name matches Some(n)
            && eq_ignore_ascii_case(n@, ini_file_name()))),
        !is_dir ==> (r is Err <==> !(file_name matches Some(n) && eq_ignore_ascii_case(n@, ini_file_name()))),
{
    if is_dir {
        return Ok(IniTarget::InsideFolder);
    }
    let expected = vec!['D', 'e', 'f', 'a', 'u', 'l', 't', 'S', 't', 'a', 't', 's', 'A', 'P', 'I', '.', 'i', 'n', 'i'];
    proof {
        assert(expected@ =~= ini_file_name());
    }
    match file_name {
        Some(n) => {
            let c = chars_of(n);
            if chars_eq_ignore_ascii_case(c.as_slice(), expected.as_slice()) {
                Ok(IniTarget::AsGiven)
            } else {
                Err(NotAnIniTarget)
            }
        },
        None => Err(NotAnIniTarget),
    }
}

/// The value of a string of ASCII digits.
pub open spec fn digits_value(d: Seq<char>) -> int
    decreases d.len(),
{
    if d.len() == 0 {
        0
    } else {
        digits_value(d.drop_last()) * 10 + ((d.last() as u32) - 0x30)
    }
}

/// What `str::parse` gives for an unsigned integer type whose largest value is
/// `max`: an optional `+`, then one or more ASCII digits, denoting at most
/// `max`; anything else is an error (`None`).
pub open spec fn parse_unsigned(s: Seq<char>, max: int) -> Option<int> {
    let d = unsigned_digits(s);
    if d.len() > 0 && all_digits(d) && digits_value(d) <= max {
        Some(digits_value(d))
    } else {
        None
    }
}

/// `s` without one leading `+`.
pub open spec fn unsigned_digits(s: Seq<char>) -> Seq<char> {
    if s.len() > 0 && s[0] == '+' { s.drop_first() } else { s }
}

/// Every character of `d` is an ASCII digit.
pub open spec fn all_digits(d: Seq<char>) -> bool {
    forall|i: int| 0 <= i < d.len() ==> is_ascii_digit(#[trigger] d[i])
}

proof fn lemma_digits_value_monotone(d: Seq<char>, k: int)
    requires
        0 <= k <= d.len(),
        forall|i: int| 0 <= i < d.len() ==> is_ascii_digit(#[trigger] d[i]),
    ensures
        digits_value(d.take(k)) <= digits_value(d),
        digits_value(d) >= 0,
    decreases d.len(),
{
    if d.len() > 0 {
        if k == d.len() {
            assert(d.take(k) =~= d);
        } else {
            assert(d.drop_last().take(k) =~= d.take(k));
        }
        lemma_digits_value_monotone(d.drop_last(), if k == d.len() { k - 1 } else { k });
        assert(digits_value(d.drop_last()) >= 0);
    }
}

/// Parse `s` (already trimmed) the way `str::parse::<u64>` does for a type
/// whose largest value is `max`.
fn parse_unsigned_chars(s: &[char], max: u64) -> (r: Option<u64>)
    requires
        max <= u32::MAX,
    ensures
        match r {
            Some(v) => parse_unsigned(s@, max as int) == Some(v as int),
            None => parse_unsigned(s@, max as int) is None,
        },
{
    let ghost d = unsigned_digits(s@);
    let start: usize = if s.len() > 0 && s[0] == '+' { 1 } else { 0 };
    proof {
        assert(d =~= s@.skip(start as int));
    }
    if start >= s.len() {
        return None;
    }
    let mut acc: u64 = 0;
    let mut i = start;
    while i < s.len()
        invariant
            start <= i <= s@.len(),
            d == s@.skip(start as int),
            d == unsigned_digits(s@),
            max <= u32::MAX,
            acc <= max,
            acc as int == digits_value(d.take(i - start)),
            forall|k: int| 0 <= k < i - start ==> is_ascii_digit(#[trigger] d[k]),
        decreases s@.len() - i,
    {
        let c = s[i];
        proof {
            assert(d[i - start] == c);
        }
        if !('0' <= c && c <= '9') {
            proof {
                assert(!is_ascii_digit(d[i - start]));
                assert(!all_digits(d));
                assert(parse_unsigned(s@, max as int) is None);
            }
            return None;
        }
        proof {
            assert(d.take(i - start + 1).drop_last() =~= d.take(i - start));
            assert(d.take(i - start + 1).last() == c);
        }
        let digit: u64 = (c as u32 - 0x30) as u64;
        acc = acc * 10 + digit;
        proof {
            assert(acc as int == digits_value(d.take(i - start + 1)));
        }
        if acc > max {
            proof {
                if all_digits(d) {
                    lemma_digits_value_monotone(d, i - start + 1);
                    assert(digits_value(d) > max);
                }
                assert(parse_unsigned(s@, max as int) is None);
            }
            return None;
        }
        i += 1;
    }
    proof {
        assert(d.take(d.len() as int) =~= d);
    }
    Some(acc)
}

/// What an ini field holds as a number: the trimmed text parsed as an
/// unsigned integer of at most `max`, when the field is present.
pub open spec fn field_number(field: Option<Seq<char>>, max: int) -> Option<int> {
    match field {
        Some(s) => parse_unsigned(trim(s), max),
        None => None,
    }
}

/// Whether an ini needs no patch: its exporter section already reads
/// `PacketSendRate = 30` and `Port = 49123` (surrounding whitespace allowed)
/// and the legacy section is gone.
pub open spec fn ini_is_patched(rate: Option<Seq<char>>, port: Option<Seq<char>>, has_legacy: bool) -> bool {
    &&& field_number(rate, u32::MAX as int) == Some(TARGET_PACKET_RATE as int)
    &&& field_number(port, u16::MAX as int) == Some(TARGET_PORT as int)
    &&& !has_legacy
}

/// The decimal value a field holds as typed: digits after an optional `+`,
/// surrounding whitespace ignored.
pub open spec fn denotes(field: Option<Seq<char>>, value: int) -> bool {
    match field {
        Some(s) => {
            let d = unsigned_digits(trim(s));
            d.len() > 0 && all_digits(d) && digits_value(d) == value
        },
        None => false,
    }
}

proof fn lemma_plain_digits_unchanged(p: Seq<char>)
    requires
        p.len() > 0,
        all_digits(p),
    ensures
        unsigned_digits(trim(p)) == p,
{
    assert(is_ascii_digit(p[0]));
    assert(trim_start(p) == p);
    assert(is_ascii_digit(p[p.len() - 1]));
    assert(trim_end(p) == p);
}

/// A file counts as patched only when its exporter section's rate denotes
/// exactly 30 and its port exactly 49123, and no legacy section is left; a
/// port written as plain digits of any other value is never accepted, and
/// plain `30` / `49123` without a legacy section always are.
pub proof fn lemma_patched_means_target_values(rate: Option<Seq<char>>, port: Option<Seq<char>>, has_legacy: bool)
    ensures
        ini_is_patched(rate, port, has_legacy) ==> denotes(rate, 30) && denotes(port, 49123) && !has_legacy,
        forall|p: Seq<char>| p.len() > 0 && all_digits(p) && digits_value(p) != 49123
            ==> !#[trigger] ini_is_patched(rate, Some(p), has_legacy),
        forall|r: Seq<char>, p: Seq<char>| r.len() > 0 && all_digits(r) && digits_value(r) == 30 && p.len() > 0
            && all_digits(p) && digits_value(p) == 49123 && !has_legacy ==> #[trigger] ini_is_patched(Some(r), Some(p), has_legacy),
{
    assert forall|p: Seq<char>| p.len() > 0 && all_digits(p) && digits_value(p) != 49123
        implies !#[trigger] ini_is_patched(rate, Some(p), has_legacy) by {
        lemma_plain_digits_unchanged(p);
    }
    assert forall|r: Seq<char>, p: Seq<char>| r.len() > 0 && all_digits(r) && digits_value(r) == 30 && p.len() > 0
        && all_digits(p) && digits_value(p) == 49123 && !has_legacy implies #[trigger] ini_is_patched(Some(r), Some(p), has_legacy) by {
        lemma_plain_digits_unchanged(r);
        lemma_plain_digits_unchanged(p);
    }
}

fn field_number_exec(field: Option<&str>, max: u64) -> (r: Option<u64>)
    requires
        max <= u32::MAX,
    ensures
        match r {
            Some(v) => field_number(match field { Some(s) => Some(s@), None => None }, max as int) == Some(v as int),
            None => field_number(match field { Some(s) => Some(s@), None => None }, max as int) is None,
        },
{
    match field {
        Some(s) => {
            let c = chars_of(s);
            let (a, b) = trim_range(c.as_slice(), 0, c.len());
            proof {
                assert(c@.subrange(0, c@.len() as int) =~= c@);
            }
            let mut t: Vec<char> = Vec::new();
            let mut i = a;
            while i < b
                invariant
                    a <= i <= b <= c@.len(),
                    t@ == c@.subrange(a as int, i as int),
                decreases b - i,
            {
                t.push(c[i]);
                proof {
                    assert(t@ =~= c@.subrange(a as int, i + 1));
                }
                i += 1;
            }
            parse_unsigned_chars(t.as_slice(), max)
        },
        None => None,
    }
}

/// Decide from the exporter section's `PacketSendRate` and `Port` values (as
/// read from the ini, if present) and the presence of the legacy section
/// whether the file is already correct.
pub fn ini_already_patched(rate: Option<&str>, port: Option<&str>, has_legacy: bool) -> (ok: bool)
    ensures
        ok == ini_is_patched(
            match rate { Some(s) => Some(s@), None => None },
            match port { Some(s) => Some(s@), None => None },
            has_legacy,
        ),
{
    let r = field_number_exec(rate, 4294967295);
    let p = field_number_exec(port, 65535);
    let rate_ok = match r {
        Some(v) => v == 30,
        None => false,
    };
    let port_ok = match p {
        Some(v) => v == 49123,
        None => false,
    };
    rate_ok && port_ok && !has_legacy
}

// ---------- the ini document --------------------------------------------------

/// `ini::Ini`, a parsed ini document.
#[verifier::external_type_specification]
#[verifier::external_body]
pub struct ExIni(Ini);

/// What an `ini::Ini` holds, as `get_from` reads it: for each (section, key)
/// pair, the first value of the key in the first section of that name.
/// `None` names the general section.
pub uninterp spec fn ini_contents(conf: Ini) -> Map<(Option<Seq<char>>, Seq<char>), Seq<char>>;

/// The names of the sections an `ini::Ini` holds, empty ones included.
pub uninterp spec fn ini_sections(conf: Ini) -> Set<Option<Seq<char>>>;

/// The keys of the section named `section`.
pub open spec fn keys_of_section(section: Option<Seq<char>>) -> Set<(Option<Seq<char>>, Seq<char>)> {
    Set::new(|p: (Option<Seq<char>>, Seq<char>)| p.0 == section)
}

/// `Ini::get_from(Some(section), key)`, which returns the first value of `key`
/// in the first section named `section`; the claim is that it is the value
/// [`ini_contents`] holds for the pair, and `None` when it holds none.
#[verifier::external_body]
fn ini_get(conf: &Ini, section: &str, key: &str) -> (r: Option<String>)
    ensures
        match r {
            Some(v) => ini_contents(*conf).contains_key((Some(section@), key@))
                && ini_contents(*conf)[(Some(section@), key@)] == v@,
            None => !ini_contents(*conf).contains_key((Some(section@), key@)),
        },
{
    match conf.get_from(Some(section), key) {
        Some(v) => Some(v.to_string()),
        None => None,
    }
}

/// `Ini::section(Some(section)).is_some()`: whether a section of that name
/// exists; the claim is that this is membership in [`ini_sections`], and that
/// a missing section holds no value (`get_from` looks values up in the
/// section it finds).
#[verifier::external_body]
fn ini_has_section(conf: &Ini, section: &str) -> (r: bool)
    ensures
        r == ini_sections(*conf).contains(Some(section@)),
        !r ==> forall|k: Seq<char>| !#[trigger] ini_contents(*conf).contains_key((Some(section@), k)),
{
    conf.section(Some(section)).is_some()
}

/// `Ini::delete(Some(section))`, which removes every section of that name
/// (the underlying `ListOrderedMultimap::remove` drops all values of the
/// key). The claim: the name leaves [`ini_sections`], its pairs leave
/// [`ini_contents`], and nothing else changes.
#[verifier::external_body]
fn ini_delete_section(conf: &mut Ini, section: &str)
    ensures
        ini_sections(*final(conf)) == ini_sections(*old(conf)).remove(Some(section@)),
        ini_contents(*final(conf)) == ini_contents(*old(conf)).remove_keys(keys_of_section(Some(section@))),
{
    conf.delete(Some(section));
}

/// `Ini::with_section(Some(section)).set(key, value)`, which creates the
/// section when missing and replaces every value of `key` in its first
/// section by `value`. The claim: the pair maps to `value`, the section name
/// is present, and nothing else changes.
#[verifier::external_body]
fn ini_set(conf: &mut Ini, section: &str, key: &str, value: &str)
    ensures
        ini_sections(*final(conf)) == ini_sections(*old(conf)).insert(Some(section@)),
        ini_contents(*final(conf)) == ini_contents(*old(conf)).insert((Some(section@), key@), value@),
{
    conf.with_section(Some(section)).set(key, value);
}

/// The section Rocket League's exporter reads.
pub open spec fn stats_section() -> Seq<char> {
    "TAGame.MatchStatsExporter_TA"@
}

/// A section older versions of this app wrote, which Rocket League ignores.
pub open spec fn legacy_section() -> Seq<char> {
    "/Script/TAGame.StatsAPIClient"@
}

pub open spec fn rate_key() -> Seq<char> {
    "PacketSendRate"@
}

pub open spec fn port_key() -> Seq<char> {
    "Port"@
}

/// The value a document holds for a key of the exporter section.
pub open spec fn stats_field(contents: Map<(Option<Seq<char>>, Seq<char>), Seq<char>>, key: Seq<char>) -> Option<Seq<char>> {
    if contents.contains_key((Some(stats_section()), key)) {
        Some(contents[(Some(stats_section()), key)])
    } else {
        None
    }
}

/// Whether a document needs no patch (see [`ini_is_patched`]).
pub open spec fn conf_is_patched(conf: Ini) -> bool {
    ini_is_patched(
        stats_field(ini_contents(conf), rate_key()),
        stats_field(ini_contents(conf), port_key()),
        ini_sections(conf).contains(Some(legacy_section())),
    )
}

/// `PacketSendRate` and `Port` written as `to_string` renders the targets.
pub open spec fn rate_text() -> Seq<char> {
    "30"@
}

pub open spec fn port_text() -> Seq<char> {
    "49123"@
}

/// The patched document: the legacy section dropped, then the exporter
/// section's rate and port set.
pub open spec fn patched_contents(contents: Map<(Option<Seq<char>>, Seq<char>), Seq<char>>) -> Map<(Option<Seq<char>>, Seq<char>), Seq<char>> {
    contents.remove_keys(keys_of_section(Some(legacy_section())))
        .insert((Some(stats_section()), rate_key()), rate_text())
        .insert((Some(stats_section()), port_key()), port_text())
}

proof fn lemma_target_texts_parse()
    ensures
        field_number(Some(rate_text()), u32::MAX as int) == Some(TARGET_PACKET_RATE as int),
        field_number(Some(port_text()), u16::MAX as int) == Some(TARGET_PORT as int),
{
    reveal_strlit("30");
    reveal_strlit("49123");
    assert(rate_text() =~= seq!['3', '0']);
    assert(port_text() =~= seq!['4', '9', '1', '2', '3']);
    assert(('3' as u32) == 0x33);
    assert(('0' as u32) == 0x30);
    assert(seq!['3', '0'].drop_last() =~= seq!['3']);
    assert(('4' as u32) == 0x34);
    assert(('9' as u32) == 0x39);
    assert(('1' as u32) == 0x31);
    assert(('2' as u32) == 0x32);
    let e: Seq<char> = seq![];
    assert(digits_value(e) == 0);
    assert(seq!['3'].drop_last() =~= e);
    assert(digits_value(seq!['3']) == 3);
    assert(digits_value(seq!['3', '0']) == 30);
    assert(seq!['4'].drop_last() =~= e);
    assert(seq!['4', '9'].drop_last() =~= seq!['4']);
    assert(seq!['4', '9', '1'].drop_last() =~= seq!['4', '9']);
    assert(seq!['4', '9', '1', '2'].drop_last() =~= seq!['4', '9', '1']);
    assert(seq!['4', '9', '1', '2', '3'].drop_last() =~= seq!['4', '9', '1', '2']);
    assert(digits_value(seq!['4']) == 4);
    assert(digits_value(seq!['4', '9']) == 49);
    assert(digits_value(seq!['4', '9', '1']) == 491);
    assert(digits_value(seq!['4', '9', '1', '2']) == 4912);
    assert(digits_value(seq!['4', '9', '1', '2', '3']) == 49123);
    assert(trim_start(rate_text()) == rate_text());
    assert(rate_text().drop_last() =~= seq!['3']);
    assert(trim_end(rate_text()) == rate_text());
    assert(all_digits(rate_text()));
    assert(trim_start(port_text()) == port_text());
    assert(trim_end(port_text()) == port_text());
    assert(all_digits(port_text()));
}

/// A document holding what the patch writes (the legacy section gone, the
/// exporter section's rate and port set, everything else kept) is recognised
/// as patched: patching a patched file finds nothing to do.
pub proof fn lemma_patched_document_is_patched(before: Ini, after: Ini)
    requires
        ini_contents(after) == patched_contents(ini_contents(before)),
        ini_sections(after) == ini_sections(before).remove(Some(legacy_section())).insert(Some(stats_section())),
    ensures
        conf_is_patched(after),
{
    reveal_strlit("PacketSendRate");
    reveal_strlit("Port");
    reveal_strlit("TAGame.MatchStatsExporter_TA");
    reveal_strlit("/Script/TAGame.StatsAPIClient");
    lemma_target_texts_parse();
    assert(rate_key().len() != port_key().len());
    assert(stats_section().len() != legacy_section().len());
    let c = ini_contents(after);
    assert(c.contains_key((Some(stats_section()), rate_key())));
    assert(c[(Some(stats_section()), rate_key())] == rate_text());
    assert(c[(Some(stats_section()), port_key())] == port_text());
}

/// Bring a parsed `DefaultStatsAPI.ini` to the wanted state. When it already
/// reads rate 30 and port 49123 in the exporter section and has no legacy
/// section, nothing changes and `true` comes back; otherwise the legacy
/// section is dropped, the two values are set, and `false` comes back.
/// Either way the document ends up patched.
pub fn patch_conf(conf: &mut Ini) -> (already_correct: bool)
    ensures
        already_correct == conf_is_patched(*old(conf)),
        already_correct ==> *final(conf) == *old(conf),
        !already_correct ==> ini_contents(*final(conf)) == patched_contents(ini_contents(*old(conf))),
        !already_correct ==> ini_sections(*final(conf)) == ini_sections(*old(conf)).remove(Some(legacy_section())).insert(
            Some(stats_section()),
        ),
        conf_is_patched(*final(conf)),
{
    let rate = ini_get(conf, "TAGame.MatchStatsExporter_TA", "PacketSendRate");
    let port = ini_get(conf, "TAGame.MatchStatsExporter_TA", "Port");
    let has_legacy = ini_has_section(conf, "/Script/TAGame.StatsAPIClient");
    let rate_str: Option<&str> = match &rate {
        Some(v) => Some(v.as_str()),
        None => None,
    };
    let port_str: Option<&str> = match &port {
        Some(v) => Some(v.as_str()),
        None => None,
    };
    if ini_already_patched(rate_str, port_str, has_legacy) {
        return true;
    }
    if has_legacy {
        ini_delete_section(conf, "/Script/TAGame.StatsAPIClient");
    }
    ini_set(conf, "TAGame.MatchStatsExporter_TA", "PacketSendRate", "30");
    ini_set(conf, "TAGame.MatchStatsExporter_TA", "Port", "49123");
    proof {
        reveal_strlit("PacketSendRate");
        reveal_strlit("Port");
        reveal_strlit("TAGame.MatchStatsExporter_TA");
        reveal_strlit("/Script/TAGame.StatsAPIClient");
        lemma_target_texts_parse();
        assert(rate_key().len() != port_key().len());
        assert(stats_section().len() != legacy_section().len());
        if !has_legacy {
            assert forall|p: (Option<Seq<char>>, Seq<char>)| #[trigger] ini_contents(*old(conf)).contains_key(p)
                implies !keys_of_section(Some(legacy_section())).contains(p) by {
                if p.0 == Some(legacy_section()) {
                    assert(!ini_contents(*old(conf)).contains_key((Some(legacy_section()), p.1)));
                }
            }
        }
        assert(!has_legacy ==> ini_contents(*old(conf)).remove_keys(keys_of_section(Some(legacy_section())))
            =~= ini_contents(*old(conf)));
        assert(!has_legacy ==> ini_sections(*old(conf)).remove(Some(legacy_section())) =~= ini_sections(*old(conf)));
        assert(ini_sections(*final(conf)) =~= ini_sections(*old(conf)).remove(Some(legacy_section())).insert(
            Some(stats_section()),
        ));
        lemma_patched_document_is_patched(*old(conf), *final(conf));
    }
    false
}

/// Whether an Epic launcher install manifest describes Rocket League: its
/// `DisplayName` is "Rocket League" or its `AppName` is "Sugar" (Epic's code
/// name), each up to ASCII case.
pub fn is_rocket_league_manifest(display_name: &str, app_name: &str) -> (r: bool)
    ensures
        r == (eq_ignore_ascii_case(display_name@, "Rocket League"@) || eq_ignore_ascii_case(app_name@, "Sugar"@)),
{
    let d = chars_of(display_name);
    let a = chars_of(app_name);
    let rl = chars_of("Rocket League");
    let sugar = chars_of("Sugar");
    chars_eq_ignore_ascii_case(d.as_slice(), rl.as_slice()) || chars_eq_ignore_ascii_case(a.as_slice(), sugar.as_slice())
}

/// `std::path::PathBuf`, carried through as an opaque value.
#[verifier::external_type_specification]
#[verifier::external_body]
pub struct ExPathBuf(PathBuf);

/// A detected Rocket League installation.
#[derive(Debug)]
pub struct DetectedInstall {
    pub platform: String,
    pub install_dir: PathBuf,
    pub ini_path: PathBuf,
}

/// Result of patching the ini, surfaced to the frontend.
#[derive(Debug)]
pub struct PatchOutcome {
    pub already_correct: bool,
    pub backup_path: Option<PathBuf>,
}

// ---------- libraryfolders.vdf ----------------------------------------------------

/// `s` with every pair of backslashes, read left to right, collapsed into one
/// (`str::replace("\\\\", "\\")`).
pub open spec fn unescape_backslashes(s: Seq<char>) -> Seq<char>
    decreases s.len(),
{
    if s.len() == 0 {
        seq![]
    } else if s.len() >= 2 && s[0] == '\\' && s[1] == '\\' {
        seq!['\\'].add(unescape_backslashes(s.skip(2)))
    } else {
        seq![s[0]].add(unescape_backslashes(s.drop_first()))
    }
}

/// The library root named by one line of `libraryfolders.vdf`: a trimmed line
/// starting with `"path"`, followed by a quoted value (escaped backslashes
/// collapsed). Other lines name none.
pub open spec fn library_path_of_line(line: Seq<char>) -> Option<Seq<char>> {
    let t = trim(line);
    let key = "\"path\""@;
    if starts_with(t, key) {
        let rest = t.skip(key.len() as int);
        let open = find_from(rest, 0, '"');
        if open < rest.len() {
            let close = find_from(rest, open + 1, '"');
            if close < rest.len() {
                Some(unescape_backslashes(rest.subrange(open + 1, close)))
            } else {
                None
            }
        } else {
            None
        }
    } else {
        None
    }
}

/// The library roots named by a list of lines, in order.
pub open spec fn library_paths(ls: Seq<Seq<char>>) -> Seq<Seq<char>>
    decreases ls.len(),
{
    if ls.len() == 0 {
        seq![]
    } else {
        let head = library_path_of_line(ls[0]);
        let tail = library_paths(ls.drop_first());
        match head {
            Some(p) => seq![p].add(tail),
            None => tail,
        }
    }
}

fn unescape_exec(s: &[char], lo: usize, hi: usize) -> (v: Vec<char>)
    requires
        lo <= hi <= s@.len(),
    ensures
        v@ == unescape_backslashes(s@.subrange(lo as int, hi as int)),
{
    let mut out: Vec<char> = Vec::new();
    let mut i = lo;
    while i < hi
        invariant
            lo <= i <= hi <= s@.len(),
            unescape_backslashes(s@.subrange(lo as int, hi as int))
                == out@.add(unescape_backslashes(s@.subrange(i as int, hi as int))),
        decreases hi - i,
    {
        let ghost sub = s@.subrange(i as int, hi as int);
        if i + 1 < hi && s[i] == '\\' && s[i + 1] == '\\' {
            proof {
                assert(sub.skip(2) =~= s@.subrange(i + 2, hi as int));
                assert(out@.push('\\').add(unescape_backslashes(sub.skip(2)))
                    =~= out@.add(seq!['\\'].add(unescape_backslashes(sub.skip(2)))));
            }
            out.push('\\');
            i += 2;
        } else {
            proof {
                assert(sub.drop_first() =~= s@.subrange(i + 1, hi as int));
                assert(out@.push(s@[i as int]).add(unescape_backslashes(sub.drop_first()))
                    =~= out@.add(seq![sub[0]].add(unescape_backslashes(sub.drop_first()))));
            }
            out.push(s[i]);
            i += 1;
        }
    }
    proof {
        assert(out@.add(unescape_backslashes(s@.subrange(hi as int, hi as int))) =~= out@);
    }
    out
}

fn library_path_exec(c: &[char], lo: usize, hi: usize, key: &[char]) -> (r: Option<Vec<char>>)
    requires
        lo <= hi <= c@.len(),
        key@ == "\"path\""@,
    ensures
        match r {
            Some(v) => library_path_of_line(c@.subrange(lo as int, hi as int)) == Some(v@),
            None => library_path_of_line(c@.subrange(lo as int, hi as int)) is None,
        },
{
    let (a, b) = trim_range(c, lo, hi);
    let t = copy_range(c, a, b);
    if !chars_starts_with(t.as_slice(), key) {
        return None;
    }
    let rest = copy_range(t.as_slice(), key.len(), t.len());
    proof {
        assert(rest@ =~= t@.skip(key@.len() as int));
    }
    let open = find_char_from(rest.as_slice(), 0, '"');
    if open >= rest.len() {
        return None;
    }
    let close = find_char_from(rest.as_slice(), open + 1, '"');
    if close >= rest.len() {
        return None;
    }
    Some(unescape_exec(rest.as_slice(), open + 1, close))
}

/// Library roots configured in Steam's `libraryfolders.vdf`: every
/// `"path" "..."` line, in order (a plain-text scan; Valve puts no other
/// `"path"` key in that file).
pub fn parse_steam_library_folders(content: &str) -> (paths: Vec<String>)
    ensures
        paths@.map_values(|p: String| p@) == library_paths(lines(content@)),
{
    let c = chars_of(content);
    let key = chars_of("\"path\"");
    let ghost s = c@;
    let mut out: Vec<String> = Vec::new();
    let mut pos: usize = 0;
    loop
        invariant
            s == c@,
            s == content@,
            key@ == "\"path\""@,
            pos <= s.len(),
            library_paths(lines(s)) == out@.map_values(|p: String| p@).add(library_paths(lines_from(s, pos as int))),
        decreases s.len() + 1 - pos,
    {
        let e = find_char_from(c.as_slice(), pos, '\n');
        proof {
            lemma_find_from_bounds(s, pos as int, '\n');
            let ls = lines_from(s, pos as int);
            assert(ls == seq![s.subrange(pos as int, e as int)].add(lines_from(s, e + 1)));
            assert(ls[0] == s.subrange(pos as int, e as int));
            assert(ls.drop_first() =~= lines_from(s, e + 1));
        }
        let found = library_path_exec(c.as_slice(), pos, e, key.as_slice());
        match found {
            Some(v) => {
                let ghost prev = out@;
                out.push(string_from_chars(v.as_slice()));
                proof {
                    assert(out@.map_values(|p: String| p@) =~= prev.map_values(|p: String| p@).push(v@));
                    assert(prev.map_values(|p: String| p@).add(seq![v@].add(library_paths(lines_from(s, e + 1))))
                        =~= prev.map_values(|p: String| p@).push(v@).add(library_paths(lines_from(s, e + 1))));
                }
            },
            None => {},
        }
        if e == c.len() {
            proof {
                assert(lines_from(s, e + 1) =~= seq![]);
                assert(out@.map_values(|p: String| p@).add(seq![]) =~= out@.map_values(|p: String| p@));
            }
            return out;
        }
        pos = e + 1;
    }
}

} // verus!
