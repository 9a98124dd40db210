//! The rules behind the settings window's commands: what each accepts,
//! how it cleans its input, and the HUD geometry it computes. Applying the
//! result to windows and to the persisted settings is the app's part.

use vstd::prelude::*;
use crate::http_server::{chars_are_theme_name, is_safe_theme_name};
use crate::session::Session;
use crate::text::{chars_eq, chars_of, copy_range, starts_with, string_from_chars, trim, trim_range};

verus! {

// ---------- language ---------------------------------------------------------

/// The language is none of `auto`, `fr`, `en`.
#[derive(Debug, Clone, Copy, PartialEq, Eq)]
pub struct UnsupportedLanguage;

pub open spec fn is_supported_language(l: Seq<char>) -> bool {
    l == "auto"@ || l == "fr"@ || l == "en"@
}

/// Accept a UI language: `auto` (follow the browser), `fr` or `en`.
pub fn validate_language(language: &str) -> (r: Result<(), UnsupportedLanguage>)
    ensures
        r is Ok <==> is_supported_language(language@),
{
    let l = chars_of(language);
    let auto = chars_of("auto");
    let fr = chars_of("fr");
    let en = chars_of("en");
    if chars_eq(l.as_slice(), auto.as_slice()) || chars_eq(l.as_slice(), fr.as_slice())
        || chars_eq(l.as_slice(), en.as_slice()) {
        Ok(())
    } else {
        Err(UnsupportedLanguage)
    }
}

// ---------- player name and theme name -----------------------------------------

/// The name is empty once trimmed.
#[derive(Debug, Clone, Copy, PartialEq, Eq)]
pub struct EmptyName;

fn trimmed_chars(s: &str) -> (v: Vec<char>)
    ensures
        v@ == trim(s@),
{
    let c = chars_of(s);
    let (a, b) = trim_range(c.as_slice(), 0, c.len());
    proof {
        assert(c@.subrange(0, c@.len() as int) =~= c@);
    }
    copy_range(c.as_slice(), a, b)
}

/// The in-game name to store: the given one, trimmed; refused when that
/// leaves nothing.
pub fn clean_player_name(name: &str) -> (r: Result<String, EmptyName>)
    ensures
        match r {
            Ok(n) => trim(name@).len() > 0 && n@ == trim(name@),
            Err(_) => trim(name@).len() == 0,
        },
{
    let t = trimmed_chars(name);
    if t.len() == 0 {
        Err(EmptyName)
    } else {
        Ok(string_from_chars(t.as_slice()))
    }
}

/// The theme name is empty or holds a character other than ASCII letters,
/// digits, `-` and `_`.
#[derive(Debug, Clone, Copy, PartialEq, Eq)]
pub struct InvalidThemeName;

/// The theme to activate: the given name, trimmed, when it is a safe folder
/// name; refused otherwise.
pub fn clean_theme_name(name: &str) -> (r: Result<String, InvalidThemeName>)
    ensures
        match r {
            Ok(n) => is_safe_theme_name(trim(name@)) && n@ == trim(name@),
            Err(_) => !is_safe_theme_name(trim(name@)),
        },
{
    let t = trimmed_chars(name);
    if chars_are_theme_name(t.as_slice()) {
        Ok(string_from_chars(t.as_slice()))
    } else {
        Err(InvalidThemeName)
    }
}

// ---------- team-size filter ---------------------------------------------------

/// The entries of `sizes` between 1 and 4, in order.
pub open spec fn counted_sizes(sizes: Seq<u8>) -> Seq<u8>
    decreases sizes.len(),
{
    if sizes.len() == 0 {
        seq![]
    } else {
        let head = counted_sizes(sizes.drop_last());
        if 1 <= sizes.last() <= 4 { head.push(sizes.last()) } else { head }
    }
}

/// Keep the team sizes the filter understands (1v1 to 4v4). An empty result
/// is allowed: it freezes the session.
pub fn clean_team_sizes(sizes: &[u8]) -> (r: Vec<u8>)
    ensures
        r@ == counted_sizes(sizes@),
{
    let mut out: Vec<u8> = Vec::new();
    let mut i: usize = 0;
    while i < sizes.len()
        invariant
            i <= sizes@.len(),
            out@ == counted_sizes(sizes@.take(i as int)),
        decreases sizes@.len() - i,
    {
        proof {
            assert(sizes@.take(i + 1).drop_last() =~= sizes@.take(i as int));
        }
        let s = sizes[i];
        if 1 <= s && s <= 4 {
            out.push(s);
        }
        i += 1;
    }
    proof {
        assert(sizes@.take(sizes@.len() as int) =~= sizes@);
    }
    out
}

// ---------- manual session edit --------------------------------------------------

pub open spec fn clamp_count(v: i64) -> u32 {
    if v < 0 { 0 } else if v > u32::MAX { u32::MAX } else { v as u32 }
}

pub open spec fn clamp_streak(v: i64) -> i32 {
    if v < i32::MIN { i32::MIN } else if v > i32::MAX { i32::MAX } else { v as i32 }
}

/// The session a manual edit sets at `now`: every counter clamped into its
/// field's range, and the session counted as touched (so the edit does not
/// trip the idle expiry).
pub fn session_from_edit(
    wins: i64,
    losses: i64,
    streak: i64,
    best_win_streak: i64,
    best_loss_streak: i64,
    now: u64,
) -> (s: Session)
    ensures
        s.wins == clamp_count(wins),
        s.losses == clamp_count(losses),
        s.streak == clamp_streak(streak),
        s.best_win_streak == clamp_count(best_win_streak),
        s.best_loss_streak == clamp_count(best_loss_streak),
        s.last_update == now,
{
    let clamp_u32 = |v: i64| -> (r: u32)
        ensures
            r == clamp_count(v),
        { if v < 0 { 0 } else if v > 4294967295 { 4294967295 } else { v as u32 } };
    let st: i32 = if streak < -2147483648 {
        -2147483648
    } else if streak > 2147483647 {
        2147483647
    } else {
        streak as i32
    };
    Session {
        wins: clamp_u32(wins),
        losses: clamp_u32(losses),
        streak: st,
        best_win_streak: clamp_u32(best_win_streak),
        best_loss_streak: clamp_u32(best_loss_streak),
        last_update: now,
    }
}

// ---------- analytics profile ------------------------------------------------------

/// No profile was given and none is active yet.
#[derive(Debug, Clone, Copy, PartialEq, Eq)]
pub struct NoActiveProfile;

/// The profile to query: the explicit one when given and non-empty, else the
/// active (stored) one, else an error.
pub fn effective_primary_id(explicit: Option<String>, stored: &str) -> (r: Result<String, NoActiveProfile>)
    ensures
        match explicit {
            Some(p) => p@.len() > 0 ==> (r matches Ok(q) && q@ == p@),
            None => true,
        },
        !(explicit matches Some(p) && p@.len() > 0) ==> match r {
            Ok(q) => stored@.len() > 0 && q@ == stored@,
            Err(_) => stored@.len() == 0,
        },
{
    match explicit {
        Some(p) => {
            if !p.as_str().is_empty() {
                return Ok(p);
            }
        },
        None => {},
    }
    let s = chars_of(stored);
    if s.len() == 0 {
        Err(NoActiveProfile)
    } else {
        Ok(string_from_chars(s.as_slice()))
    }
}

// ---------- HUD geometry -------------------------------------------------------------

/// The HUD scale slider's percentage, clamped to 25 – 400.
pub fn clamp_hud_scale_percent(percent: u32) -> (p: u32)
    ensures
        p == if percent < 25 { 25 } else if percent > 400 { 400 } else { percent },
{
    if percent < 25 {
        25
    } else if percent > 400 {
        400
    } else {
        percent
    }
}

/// The HUD size an absolute edit sets: each given dimension replaces the
/// current one, and the result is kept at least 80 × 60 so the window stays
/// usable.
pub fn hud_size_from_edit(w: Option<u32>, h: Option<u32>, current_w: u32, current_h: u32) -> (r: (u32, u32))
    ensures
        r.0 == ({ let v = match w { Some(x) => x, None => current_w }; if v < 80 { 80 } else { v } }),
        r.1 == ({ let v = match h { Some(x) => x, None => current_h }; if v < 60 { 60 } else { v } }),
{
    let nw = match w {
        Some(x) => x,
        None => current_w,
    };
    let nh = match h {
        Some(x) => x,
        None => current_h,
    };
    (if nw < 80 { 80 } else { nw }, if nh < 60 { 60 } else { nh })
}

/// Where a snapped HUD edge sits on one axis.
#[derive(Debug, Clone, Copy, PartialEq, Eq)]
pub enum Anchor {
    Start,
    Center,
    End,
}

/// The anchors of the nine snap presets, `(horizontal, vertical)`.
pub open spec fn preset_anchors(preset: Seq<char>) -> Option<(Anchor, Anchor)> {
    if preset == "top-left"@ {
        Some((Anchor::Start, Anchor::Start))
    } else if preset == "top-center"@ {
        Some((Anchor::Center, Anchor::Start))
    } else if preset == "top-right"@ {
        Some((Anchor::End, Anchor::Start))
    } else if preset == "middle-left"@ {
        Some((Anchor::Start, Anchor::Center))
    } else if preset == "center"@ {
        Some((Anchor::Center, Anchor::Center))
    } else if preset == "middle-right"@ {
        Some((Anchor::End, Anchor::Center))
    } else if preset == "bottom-left"@ {
        Some((Anchor::Start, Anchor::End))
    } else if preset == "bottom-center"@ {
        Some((Anchor::Center, Anchor::End))
    } else if preset == "bottom-right"@ {
        Some((Anchor::End, Anchor::End))
    } else {
        None
    }
}

/// The snapped coordinate on one axis of a monitor starting at `origin` and
/// `extent` long, for a window `size` long: `margin` in from the start,
/// centered, or `margin` in from the end, never before the monitor's start.
pub open spec fn anchored(a: Anchor, origin: int, extent: int, size: int, margin: int) -> int {
    match a {
        Anchor::Start => origin + margin,
        Anchor::Center => origin + if extent - size > 0 { (extent - size) / 2 } else { 0 },
        Anchor::End => origin + if extent - size - margin > 0 { extent - size - margin } else { 0 },
    }
}

pub open spec fn fits_i32(v: int) -> bool {
    i32::MIN <= v <= i32::MAX
}

/// The intermediate values the snap computes on one axis stay within `i32`.
pub open spec fn anchored_fits(a: Anchor, origin: int, extent: int, size: int, margin: int) -> bool {
    &&& fits_i32(anchored(a, origin, extent, size, margin))
    &&& a == Anchor::Center ==> fits_i32(extent - size)
    &&& a == Anchor::End ==> fits_i32(extent - size) && fits_i32(extent - size - margin)
}

fn parse_preset(preset: &str) -> (r: Option<(Anchor, Anchor)>)
    ensures
        r == preset_anchors(preset@),
{
    let p = chars_of(preset);
    if chars_eq(p.as_slice(), chars_of("top-left").as_slice()) {
        Some((Anchor::Start, Anchor::Start))
    } else if chars_eq(p.as_slice(), chars_of("top-center").as_slice()) {
        Some((Anchor::Center, Anchor::Start))
    } else if chars_eq(p.as_slice(), chars_of("top-right").as_slice()) {
        Some((Anchor::End, Anchor::Start))
    } else if chars_eq(p.as_slice(), chars_of("middle-left").as_slice()) {
        Some((Anchor::Start, Anchor::Center))
    } else if chars_eq(p.as_slice(), chars_of("center").as_slice()) {
        Some((Anchor::Center, Anchor::Center))
    } else if chars_eq(p.as_slice(), chars_of("middle-right").as_slice()) {
        Some((Anchor::End, Anchor::Center))
    } else if chars_eq(p.as_slice(), chars_of("bottom-left").as_slice()) {
        Some((Anchor::Start, Anchor::End))
    } else if chars_eq(p.as_slice(), chars_of("bottom-center").as_slice()) {
        Some((Anchor::Center, Anchor::End))
    } else if chars_eq(p.as_slice(), chars_of("bottom-right").as_slice()) {
        Some((Anchor::End, Anchor::End))
    } else {
        None
    }
}

/// `s` ends with `suffix`.
pub open spec fn ends_with(s: Seq<char>, suffix: Seq<char>) -> bool {
    suffix.len() <= s.len() && s.skip(s.len() - suffix.len()) == suffix
}

proof fn lemma_not_ends_with(s: Seq<char>, suffix: Seq<char>, i: int)
    requires
        suffix.len() > s.len() || (0 <= i < suffix.len() && s[s.len() - suffix.len() + i] != suffix[i]),
    ensures
        !ends_with(s, suffix),
{
    if ends_with(s, suffix) {
        assert(s.skip(s.len() - suffix.len())[i] == suffix[i]);
    }
}

proof fn lemma_not_starts_with(s: Seq<char>, prefix: Seq<char>, i: int)
    requires
        prefix.len() > s.len() || (0 <= i < prefix.len() && s[i] != prefix[i]),
    ensures
        !starts_with(s, prefix),
{
    if starts_with(s, prefix) {
        assert(s.take(prefix.len() as int)[i] == prefix[i]);
    }
}

/// The snap presets do what their names say. A preset ending in `-left`
/// puts the HUD `margin` in from the monitor's left edge, one ending in
/// `-right` puts its right side `margin` in from the right edge (never left
/// of the monitor), one ending in `-center` (and `center`) centres it
/// horizontally; a preset starting with `top-` puts it `margin` below the
/// top edge, `bottom-` `margin` above the bottom edge, `middle-` (and
/// `center`) centres it vertically. Every recognised name is one of these.
pub proof fn lemma_presets_follow_their_names(
    preset: Seq<char>,
    mon_x: int,
    mon_y: int,
    mon_w: int,
    mon_h: int,
    win_w: int,
    win_h: int,
    margin: int,
)
    ensures
        preset_anchors(preset) is Some ==> (ends_with(preset, "-left"@) || ends_with(preset, "-right"@)
            || ends_with(preset, "-center"@) || preset == "center"@),
        preset_anchors(preset) is Some ==> (starts_with(preset, "top-"@) || starts_with(preset, "middle-"@)
            || starts_with(preset, "bottom-"@) || preset == "center"@),
        preset_anchors(preset) is Some && ends_with(preset, "-left"@)
            ==> anchored((preset_anchors(preset)->0).0, mon_x, mon_w, win_w, margin) == mon_x + margin,
        preset_anchors(preset) is Some && ends_with(preset, "-right"@)
            ==> anchored((preset_anchors(preset)->0).0, mon_x, mon_w, win_w, margin) == mon_x + if mon_w - win_w - margin > 0 {
                mon_w - win_w - margin
            } else {
                0
            },
        preset_anchors(preset) is Some && (ends_with(preset, "-center"@) || preset == "center"@)
            ==> anchored((preset_anchors(preset)->0).0, mon_x, mon_w, win_w, margin) == mon_x + if mon_w - win_w > 0 { (mon_w - win_w) / 2 } else { 0 },
        preset_anchors(preset) is Some && starts_with(preset, "top-"@)
            ==> anchored((preset_anchors(preset)->0).1, mon_y, mon_h, win_h, margin) == mon_y + margin,
        preset_anchors(preset) is Some && starts_with(preset, "bottom-"@)
            ==> anchored((preset_anchors(preset)->0).1, mon_y, mon_h, win_h, margin) == mon_y + if mon_h - win_h - margin > 0 {
                mon_h - win_h - margin
            } else {
                0
            },
        preset_anchors(preset) is Some && (starts_with(preset, "middle-"@) || preset == "center"@)
            ==> anchored((preset_anchors(preset)->0).1, mon_y, mon_h, win_h, margin) == mon_y + if mon_h - win_h > 0 { (mon_h - win_h) / 2 } else { 0 },
{
    reveal_strlit("top-left");
    reveal_strlit("top-center");
    reveal_strlit("top-right");
    reveal_strlit("middle-left");
    reveal_strlit("center");
    reveal_strlit("middle-right");
    reveal_strlit("bottom-left");
    reveal_strlit("bottom-center");
    reveal_strlit("bottom-right");
    reveal_strlit("-left");
    reveal_strlit("-right");
    reveal_strlit("-center");
    reveal_strlit("top-");
    reveal_strlit("middle-");
    reveal_strlit("bottom-");
    let l = "-left"@;
    let r = "-right"@;
    let c = "-center"@;
    let t = "top-"@;
    let m = "middle-"@;
    let b = "bottom-"@;
    if preset_anchors(preset) is Some {
        let p = preset;
        // Each name: which of its words hold, and which do not.
        if p == "top-left"@ {
            assert(p.skip(p.len() - l.len()) =~= l);
            assert(p.take(t.len() as int) =~= t);
            lemma_not_ends_with(p, r, 0);
            lemma_not_ends_with(p, c, 1);
            lemma_not_starts_with(p, m, 0);
            lemma_not_starts_with(p, b, 0);
        } else if p == "top-center"@ {
            assert(p.skip(p.len() - c.len()) =~= c);
            assert(p.take(t.len() as int) =~= t);
            lemma_not_ends_with(p, l, 0);
            lemma_not_ends_with(p, r, 0);
            lemma_not_starts_with(p, m, 0);
            lemma_not_starts_with(p, b, 0);
        } else if p == "top-right"@ {
            assert(p.skip(p.len() - r.len()) =~= r);
            assert(p.take(t.len() as int) =~= t);
            lemma_not_ends_with(p, l, 0);
            lemma_not_ends_with(p, c, 0);
            lemma_not_starts_with(p, m, 0);
            lemma_not_starts_with(p, b, 0);
        } else if p == "middle-left"@ {
            assert(p.skip(p.len() - l.len()) =~= l);
            assert(p.take(m.len() as int) =~= m);
            lemma_not_ends_with(p, r, 0);
            lemma_not_ends_with(p, c, 0);
            lemma_not_starts_with(p, t, 0);
            lemma_not_starts_with(p, b, 0);
        } else if p == "center"@ {
            lemma_not_ends_with(p, l, 0);
            lemma_not_ends_with(p, r, 0);
            lemma_not_ends_with(p, c, 0);
            lemma_not_starts_with(p, t, 0);
            lemma_not_starts_with(p, m, 0);
            lemma_not_starts_with(p, b, 0);
        } else if p == "middle-right"@ {
            assert(p.skip(p.len() - r.len()) =~= r);
            assert(p.take(m.len() as int) =~= m);
            lemma_not_ends_with(p, l, 0);
            lemma_not_ends_with(p, c, 0);
            lemma_not_starts_with(p, t, 0);
            lemma_not_starts_with(p, b, 0);
        } else if p == "bottom-left"@ {
            assert(p.skip(p.len() - l.len()) =~= l);
            assert(p.take(b.len() as int) =~= b);
            lemma_not_ends_with(p, r, 0);
            lemma_not_ends_with(p, c, 0);
            lemma_not_starts_with(p, t, 0);
            lemma_not_starts_with(p, m, 0);
        } else if p == "bottom-center"@ {
            assert(p.skip(p.len() - c.len()) =~= c);
            assert(p.take(b.len() as int) =~= b);
            lemma_not_ends_with(p, l, 0);
            lemma_not_ends_with(p, r, 0);
            lemma_not_starts_with(p, t, 0);
            lemma_not_starts_with(p, m, 0);
        } else {
            assert(p == "bottom-right"@);
            assert(p.skip(p.len() - r.len()) =~= r);
            assert(p.take(b.len() as int) =~= b);
            lemma_not_ends_with(p, l, 0);
            lemma_not_ends_with(p, c, 0);
            lemma_not_starts_with(p, t, 0);
            lemma_not_starts_with(p, m, 0);
        }
    }
}

fn anchored_exec(a: Anchor, origin: i32, extent: i32, size: i32, margin: i32) -> (r: i32)
    requires
        anchored_fits(a, origin as int, extent as int, size as int, margin as int),
    ensures
        r as int == anchored(a, origin as int, extent as int, size as int, margin as int),
{
    match a {
        Anchor::Start => origin + margin,
        Anchor::Center => {
            let d = extent - size;
            origin + if d > 0 { d / 2 } else { 0 }
        },
        Anchor::End => {
            let d = extent - size - margin;
            origin + if d > 0 { d } else { 0 }
        },
    }
}

/// An unknown snap preset.
#[derive(Debug, Clone, Copy, PartialEq, Eq)]
pub struct UnknownPreset;

/// Snap the HUD to one of nine anchor presets on its monitor (origin
/// `mon_x, mon_y`, size `mon_w × mon_h`) for a window of `win_w × win_h`,
/// `margin` in from the edges. Unknown preset names are refused.
pub fn snap_hud_position(
    preset: &str,
    mon_x: i32,
    mon_y: i32,
    mon_w: i32,
    mon_h: i32,
    win_w: i32,
    win_h: i32,
    margin: i32,
) -> (r: Result<(i32, i32), UnknownPreset>)
    requires
        preset_anchors(preset@) matches Some((ax, ay)) ==> (anchored_fits(ax, mon_x as int, mon_w as int, win_w as int, margin as int)
            && anchored_fits(ay, mon_y as int, mon_h as int, win_h as int, margin as int)),
    ensures
        match preset_anchors(preset@) {
            Some((ax, ay)) => (r matches Ok((x, y))
                && x as int == anchored(ax, mon_x as int, mon_w as int, win_w as int, margin as int)
                && y as int == anchored(ay, mon_y as int, mon_h as int, win_h as int, margin as int)),
            None => r is Err,
        },
{
    match parse_preset(preset) {
        Some((ax, ay)) => {
            let x = anchored_exec(ax, mon_x, mon_w, win_w, margin);
            let y = anchored_exec(ay, mon_y, mon_h, win_h, margin);
            Ok((x, y))
        },
        None => Err(UnknownPreset),
    }
}

// ---------- window visibility -------------------------------------------------

/// What to do with the floating launcher badge.
#[derive(Debug, Clone, Copy, PartialEq, Eq)]
pub enum LauncherAction {
    /// The launcher is disabled: close its window.
    Destroy,
    /// A match is running: keep the window but hide it over the game.
    Hide,
    /// Enabled and out of a match: create the window if needed and show it.
    Show,
}

/// Decide the launcher badge's state from the setting and whether a match
/// is in progress.
pub fn launcher_action(enabled: bool, match_in_progress: bool) -> (a: LauncherAction)
    ensures
        a == if !enabled {
            LauncherAction::Destroy
        } else if match_in_progress {
            LauncherAction::Hide
        } else {
            LauncherAction::Show
        },
{
    if !enabled {
        LauncherAction::Destroy
    } else if match_in_progress {
        LauncherAction::Hide
    } else {
        LauncherAction::Show
    }
}

/// Whether the HUD should be visible right after the "hide when Rocket
/// League is offline" option is switched: on, it follows the connection;
/// off, it returns to the user's own show/hide choice.
pub fn hud_visible_after_auto_hide_toggle(enabled: bool, connected: bool, user_wants_visible: bool) -> (v: bool)
    ensures
        v == if enabled { connected } else { user_wants_visible },
{
    if enabled { connected } else { user_wants_visible }
}

} // verus!
