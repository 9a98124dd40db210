//! Detection of the local user's Steam / Epic identifiers: the parser for
//! Steam's `loginusers.vdf`, the shape checks for SteamID64s and Epic
//! AccountIds, and the `"Platform|Uid|"` prefixes fed to the player matcher.
//! Reading the files is the app's part; everything here works on their text.

use vstd::prelude::*;
use crate::text::{
    chars_of, chars_starts_with, copy_range, find_char_from, is_ascii_digit, lines, lines_from,
    lemma_find_from_bounds, find_from, starts_with, string_from_chars, trim, trim_range, chars_eq,
};

verus! {

broadcast use vstd::string::group_string_axioms;

// ---------- identifier shapes ----------------------------------------------

/// SteamID64s are 17-digit decimals starting with `7656`.
pub open spec fn is_steamid64_chars(s: Seq<char>) -> bool {
    &&& s.len() == 17
    &&& starts_with(s, seq!['7', '6', '5', '6'])
    &&& forall|i: int| 0 <= i < s.len() ==> is_ascii_digit(#[trigger] s[i])
}

/// Lower-case hexadecimal digit.
pub open spec fn is_lower_hex(c: char) -> bool {
    ('0' <= c && c <= '9') || ('a' <= c && c <= 'f')
}

/// Epic AccountIds are UUIDs without dashes: exactly 32 lower-case hex digits.
pub open spec fn is_epic_account_id_chars(s: Seq<char>) -> bool {
    &&& s.len() == 32
    &&& forall|i: int| 0 <= i < s.len() ==> is_lower_hex(#[trigger] s[i])
}

fn chars_all_digits(s: &[char]) -> (r: bool)
    ensures
        r == forall|i: int| 0 <= i < s@.len() ==> is_ascii_digit(#[trigger] s@[i]),
{
    let mut i: usize = 0;
    while i < s.len()
        invariant
            i <= s@.len(),
            forall|k: int| 0 <= k < i ==> is_ascii_digit(#[trigger] s@[k]),
        decreases s@.len() - i,
    {
        if !('0' <= s[i] && s[i] <= '9') {
            return false;
        }
        i += 1;
    }
    true
}

fn chars_is_steamid64(s: &[char]) -> (r: bool)
    ensures
        r == is_steamid64_chars(s@),
{
    let prefix = vec!['7', '6', '5', '6'];
    proof {
        assert(prefix@ =~= seq!['7', '6', '5', '6']);
    }
    s.len() == 17 && chars_starts_with(s, prefix.as_slice()) && chars_all_digits(s)
}

/// True when `s` has the shape of a SteamID64.
pub fn is_steamid64(s: &str) -> (r: bool)
    ensures
        r == is_steamid64_chars(s@),
{
    let v = chars_of(s);
    chars_is_steamid64(v.as_slice())
}

fn chars_is_epic_account_id(s: &[char]) -> (r: bool)
    ensures
        r == is_epic_account_id_chars(s@),
{
    if s.len() != 32 {
        return false;
    }
    let mut i: usize = 0;
    while i < s.len()
        invariant
            i <= s@.len(),
            forall|k: int| 0 <= k < i ==> is_lower_hex(#[trigger] s@[k]),
        decreases s@.len() - i,
    {
        let c = s[i];
        if !(('0' <= c && c <= '9') || ('a' <= c && c <= 'f')) {
            return false;
        }
        i += 1;
    }
    true
}

/// True when `s` has the shape of an Epic AccountId.
pub fn is_epic_account_id(s: &str) -> (r: bool)
    ensures
        r == is_epic_account_id_chars(s@),
{
    let v = chars_of(s);
    chars_is_epic_account_id(v.as_slice())
}

// ---------- quoted tokens ----------------------------------------------------

/// Index of the closing `"` of a quoted token whose content starts at `j`
/// (a backslash escapes the next character), or `s.len()` when unterminated.
pub open spec fn quote_close(s: Seq<char>, j: int) -> int
    decreases s.len() - j,
{
    if j < 0 || j >= s.len() {
        s.len() as int
    } else if s[j] == '"' {
        j
    } else if s[j] == '\\' && j + 1 < s.len() {
        quote_close(s, j + 2)
    } else {
        quote_close(s, j + 1)
    }
}

/// The closing quote search stays between its start and the end of the line.
pub proof fn lemma_quote_close_bounds(s: Seq<char>, j: int)
    requires
        0 <= j <= s.len(),
    ensures
        j <= quote_close(s, j) <= s.len(),
    decreases s.len() - j,
{
    if j < s.len() && s[j] != '"' {
        if s[j] == '\\' && j + 1 < s.len() {
            lemma_quote_close_bounds(s, j + 2);
        } else {
            lemma_quote_close_bounds(s, j + 1);
        }
    }
}

/// The `"..."`-quoted tokens of `s` from position `i` on, or `None` when a
/// quote is left unterminated.
pub open spec fn tokens_from(s: Seq<char>, i: int) -> Option<Seq<Seq<char>>>
    decreases s.len() - i,
{
    if i < 0 || i >= s.len() {
        Some(seq![])
    } else if s[i] == '"' {
        let e = quote_close(s, i + 1);
        proof {
            lemma_quote_close_bounds(s, i + 1);
        }
        if e >= s.len() {
            None
        } else {
            match tokens_from(s, e + 1) {
                Some(t) => Some(seq![s.subrange(i + 1, e)].add(t)),
                None => None,
            }
        }
    } else {
        tokens_from(s, i + 1)
    }
}

/// The quoted tokens of a line, in order; none at all when a quote is left
/// unterminated. Escapes are kept as they stand in the text.
pub open spec fn quoted_tokens(s: Seq<char>) -> Seq<Seq<char>> {
    match tokens_from(s, 0) {
        Some(t) => t,
        None => seq![],
    }
}

/// The views of a list of character vectors.
pub open spec fn views(v: Seq<Vec<char>>) -> Seq<Seq<char>> {
    v.map_values(|x: Vec<char>| x@)
}

fn quoted_tokens_of(line: &[char]) -> (t: Vec<Vec<char>>)
    ensures
        views(t@) == quoted_tokens(line@),
{
    let ghost s = line@;
    let mut out: Vec<Vec<char>> = Vec::new();
    let mut i: usize = 0;
    while i < line.len()
        invariant
            i <= s.len(),
            s == line@,
            tokens_from(s, 0) == match tokens_from(s, i as int) {
                Some(t) => Some(views(out@).add(t)),
                None => None::<Seq<Seq<char>>>,
            },
        decreases s.len() - i,
    {
        if line[i] == '"' {
            let start = i + 1;
            let mut j = start;
            proof {
                lemma_quote_close_bounds(s, start as int);
            }
            while j < line.len() && line[j] != '"'
                invariant
                    start <= j <= s.len(),
                    s == line@,
                    quote_close(s, start as int) == quote_close(s, j as int),
                decreases s.len() - j,
            {
                if line[j] == '\\' && j + 1 < line.len() {
                    j += 2;
                } else {
                    j += 1;
                }
            }
            if j >= line.len() {
                return Vec::new();
            }
            let tok = copy_range(line, start, j);
            proof {
                assert(views(out@.push(tok)) =~= views(out@).push(s.subrange(start as int, j as int)));
                match tokens_from(s, j + 1) {
                    Some(t) => {
                        assert(views(out@).add(seq![s.subrange(start as int, j as int)].add(t))
                            =~= views(out@).push(s.subrange(start as int, j as int)).add(t));
                    },
                    None => {},
                }
            }
            out.push(tok);
            i = j + 1;
        } else {
            i += 1;
        }
    }
    proof {
        assert(views(out@).add(seq![]) =~= views(out@));
    }
    out
}

/// Pull `"..."`-quoted tokens from a line. Backslash escapes are passed
/// through as-is; an unterminated quote yields no token at all.
pub fn parse_quoted_tokens(line: &str) -> (tokens: Vec<String>)
    ensures
        tokens@.map_values(|t: String| t@) == quoted_tokens(line@),
{
    let chars = chars_of(line);
    let toks = quoted_tokens_of(chars.as_slice());
    let mut out: Vec<String> = Vec::new();
    let mut k: usize = 0;
    while k < toks.len()
        invariant
            k <= toks@.len(),
            out@.map_values(|t: String| t@) == views(toks@).take(k as int),
        decreases toks@.len() - k,
    {
        let s = string_from_chars(toks[k].as_slice());
        let ghost prev = out@;
        out.push(s);
        proof {
            assert(views(toks@)[k as int] == toks@[k as int]@);
            assert(out@.map_values(|t: String| t@) =~= prev.map_values(|t: String| t@).push(s@));
            assert(out@.map_values(|t: String| t@) =~= views(toks@).take(k + 1));
        }
        k += 1;
    }
    proof {
        assert(views(toks@).take(toks@.len() as int) =~= views(toks@));
    }
    out
}

// ---------- loginusers.vdf --------------------------------------------------
//
// `loginusers.vdf` looks like:
//
//   "users"
//   {
//       "76561198XXXXXXXXX"
//       {
//           "AccountName"   "alice"
//           "MostRecent"        "1"
//       }
//   }
//
// Block depth is tracked through the `{` / `}` lines; a quoted-only line names
// the block that opens on the next `{`. The SteamID64-shaped name of the
// account block being read is remembered, and a `"MostRecent" "1"` pair
// inside it records that account (the last one claiming it wins).

/// Scanner state over the lines: block depth, the block names waiting for
/// their `{`, the account block being read, and the account found so far.
pub type VdfState = (int, Seq<Option<Seq<char>>>, Option<Seq<char>>, Option<Seq<char>>);

/// The key that marks the account last logged in.
pub open spec fn most_recent_key() -> Seq<char> {
    seq!['M', 'o', 's', 't', 'R', 'e', 'c', 'e', 'n', 't']
}

/// One (trimmed) line of the scan; `None` when a `}` closes more blocks than
/// were opened.
pub open spec fn vdf_step(st: VdfState, line: Seq<char>) -> Option<VdfState> {
    let (depth, pending, current, found) = st;
    if line.len() == 0 {
        Some(st)
    } else if line == seq!['{'] {
        let key = if pending.len() > 0 { pending.last() } else { None::<Seq<char>> };
        let rest = if pending.len() > 0 { pending.drop_last() } else { pending };
        let cur = match key {
            Some(k) => if is_steamid64_chars(k) { Some(k) } else { current },
            None => current,
        };
        Some((depth + 1, rest, cur, found))
    } else if line == seq!['}'] {
        let d = depth - 1;
        if d < 0 {
            None
        } else {
            Some((d, pending, if d <= 1 { None::<Seq<char>> } else { current }, found))
        }
    } else {
        let t = quoted_tokens(line);
        if t.len() == 1 {
            Some((depth, pending.push(Some(t[0])), current, found))
        } else if t.len() == 2 && t[0] == most_recent_key() && t[1] == seq!['1'] && current is Some {
            Some((depth, pending, current, current))
        } else {
            Some(st)
        }
    }
}

/// The scan over a list of lines, each trimmed first.
pub open spec fn vdf_run(ls: Seq<Seq<char>>, st: VdfState) -> Option<VdfState>
    decreases ls.len(),
{
    if ls.len() == 0 {
        Some(st)
    } else {
        match vdf_step(st, trim(ls[0])) {
            Some(next) => vdf_run(ls.drop_first(), next),
            None => None,
        }
    }
}

/// The SteamID64 of the most recent account in a `loginusers.vdf` text:
/// `None` on unbalanced braces or when no account block claims
/// `"MostRecent" "1"`.
pub open spec fn most_recent_steamid64(content: Seq<char>) -> Option<Seq<char>> {
    match vdf_run(lines(content), (0, seq![], None, None)) {
        Some(st) => if st.0 != 0 { None } else { st.3 },
        None => None,
    }
}

pub open spec fn opt_view(o: Option<Vec<char>>) -> Option<Seq<char>> {
    match o {
        Some(v) => Some(v@),
        None => None,
    }
}

struct VdfScan {
    depth: i32,
    pending: Vec<Option<Vec<char>>>,
    current: Option<Vec<char>>,
    found: Option<Vec<char>>,
}

impl VdfScan {
    spec fn view(self) -> VdfState {
        (
            self.depth as int,
            self.pending@.map_values(|o: Option<Vec<char>>| opt_view(o)),
            opt_view(self.current),
            opt_view(self.found),
        )
    }
}

fn vdf_step_exec(st: &mut VdfScan, line: &[char]) -> (ok: bool)
    requires
        0 <= old(st).depth < i32::MAX,
    ensures
        match vdf_step(old(st).view(), line@) {
            Some(next) => ok && final(st).view() == next,
            None => !ok,
        },
{
    if line.len() == 0 {
        return true;
    }
    if line.len() == 1 && line[0] == '{' {
        proof {
            assert(line@ =~= seq!['{']);
        }
        let ghost before = st.pending@;
        st.depth = st.depth + 1;
        let key = match st.pending.pop() {
            Some(k) => k,
            None => None,
        };
        proof {
            assert(st.pending@.map_values(|o: Option<Vec<char>>| opt_view(o))
                =~= if before.len() > 0 {
                    before.map_values(|o: Option<Vec<char>>| opt_view(o)).drop_last()
                } else {
                    before.map_values(|o: Option<Vec<char>>| opt_view(o))
                });
        }
        match key {
            Some(k) => {
                if chars_is_steamid64(k.as_slice()) {
                    st.current = Some(k);
                }
            },
            None => {},
        }
        return true;
    }
    if line.len() == 1 && line[0] == '}' {
        proof {
            assert(line@ =~= seq!['}']);
        }
        st.depth = st.depth - 1;
        if st.depth <= 1 {
            st.current = None;
        }
        if st.depth < 0 {
            return false;
        }
        return true;
    }
    proof {
        assert(line@ != seq!['{']) by {
            if line@ == seq!['{'] {
                assert(line@.len() == 1 && line@[0] == '{');
            }
        }
        assert(line@ != seq!['}']) by {
            if line@ == seq!['}'] {
                assert(line@.len() == 1 && line@[0] == '}');
            }
        }
    }
    let mut tokens = quoted_tokens_of(line);
    if tokens.len() == 1 {
        let t = tokens.pop().unwrap();
        proof {
            assert(views(tokens@.push(t))[0] == t@);
        }
        let ghost before = st.pending@;
        st.pending.push(Some(t));
        proof {
            assert(st.pending@.map_values(|o: Option<Vec<char>>| opt_view(o))
                =~= before.map_values(|o: Option<Vec<char>>| opt_view(o)).push(Some(t@)));
        }
        return true;
    }
    if tokens.len() == 2 {
        let key = vec!['M', 'o', 's', 't', 'R', 'e', 'c', 'e', 'n', 't'];
        let one = vec!['1'];
        proof {
            assert(key@ =~= most_recent_key());
            assert(one@ =~= seq!['1']);
            assert(views(tokens@)[0] == tokens@[0]@);
            assert(views(tokens@)[1] == tokens@[1]@);
        }
        if chars_eq(tokens[0].as_slice(), key.as_slice()) && chars_eq(tokens[1].as_slice(), one.as_slice()) {
            match &st.current {
                Some(acc) => {
                    let copy = copy_range(acc.as_slice(), 0, acc.len());
                    proof {
                        assert(copy@ =~= acc@);
                    }
                    st.found = Some(copy);
                },
                None => {},
            }
        }
    }
    true
}

/// The SteamID64 of the account marked `"MostRecent" "1"` in a
/// `loginusers.vdf` text, or `None` when the braces do not balance or no
/// account block claims it. When several blocks claim it, the last wins.
pub fn parse_most_recent_steamid64(content: &str) -> (r: Option<String>)
    requires
        content@.len() < i32::MAX,
    ensures
        match r {
            Some(id) => most_recent_steamid64(content@) == Some(id@),
            None => most_recent_steamid64(content@) is None,
        },
{
    let chars = chars_of(content);
    let ghost s = chars@;
    let mut st = VdfScan { depth: 0, pending: Vec::new(), current: None, found: None };
    proof {
        assert(st.pending@.map_values(|o: Option<Vec<char>>| opt_view(o)) =~= seq![]);
    }
    let mut pos: usize = 0;
    while pos <= chars.len()
        invariant
            s == chars@,
            s == content@,
            s.len() < i32::MAX,
            pos <= s.len() + 1,
            0 <= st.depth <= pos,
            vdf_run(lines(s), (0, seq![], None, None)) == vdf_run(lines_from(s, pos as int), st.view()),
        decreases s.len() + 1 - pos,
    {
        let e = find_char_from(chars.as_slice(), pos, '\n');
        let (a, b) = trim_range(chars.as_slice(), pos, e);
        let line = copy_range(chars.as_slice(), a, b);
        proof {
            lemma_find_from_bounds(s, pos as int, '\n');
            let rest = lines_from(s, e + 1);
            let ls = lines_from(s, pos as int);
            assert(ls == seq![s.subrange(pos as int, e as int)].add(rest));
            assert(ls[0] == s.subrange(pos as int, e as int));
            assert(ls.drop_first() =~= rest);
            assert(trim(ls[0]) == line@);
        }
        let ghost pre = st.view();
        let ok = vdf_step_exec(&mut st, line.as_slice());
        if !ok {
            proof {
                assert(vdf_step(pre, line@) is None);
                assert(vdf_run(lines_from(s, pos as int), pre) is None);
            }
            return None;
        }
        pos = e + 1;
    }
    proof {
        assert(lines_from(s, pos as int) =~= seq![]);
    }
    if st.depth != 0 {
        return None;
    }
    match st.found {
        Some(f) => Some(string_from_chars(f.as_slice())),
        None => None,
    }
}

// ---------- candidate prefixes ---------------------------------------------

/// `"<platform>|<id>|"`: the trailing `|` keeps ID-A from matching as a
/// prefix of a longer ID-B.
pub open spec fn candidate_prefix(platform: Seq<char>, id: Seq<char>) -> Seq<char> {
    platform.push('|').add(id).push('|')
}

pub open spec fn steam_chars() -> Seq<char> {
    seq!['S', 't', 'e', 'a', 'm']
}

pub open spec fn epic_chars() -> Seq<char> {
    seq!['E', 'p', 'i', 'c']
}

/// The candidate prefixes for a detected SteamID (if any) followed by one per
/// Epic AccountId, in order.
pub open spec fn candidates_for(steam_id: Option<Seq<char>>, epic_ids: Seq<Seq<char>>) -> Seq<Seq<char>> {
    let steam = match steam_id {
        Some(id) => seq![candidate_prefix(steam_chars(), id)],
        None => seq![],
    };
    steam.add(epic_ids.map_values(|id: Seq<char>| candidate_prefix(epic_chars(), id)))
}

fn prefixed(platform: &[char], id: &str) -> (s: String)
    ensures
        s@ == candidate_prefix(platform@, id@),
{
    let mut v: Vec<char> = Vec::new();
    let mut i: usize = 0;
    while i < platform.len()
        invariant
            i <= platform@.len(),
            v@ == platform@.take(i as int),
        decreases platform@.len() - i,
    {
        v.push(platform[i]);
        proof {
            assert(v@ =~= platform@.take(i + 1));
        }
        i += 1;
    }
    proof {
        assert(platform@.take(platform@.len() as int) =~= platform@);
    }
    v.push('|');
    let idc = chars_of(id);
    let ghost head = v@;
    let mut k: usize = 0;
    while k < idc.len()
        invariant
            k <= idc@.len(),
            v@ == head.add(idc@.take(k as int)),
        decreases idc@.len() - k,
    {
        v.push(idc[k]);
        proof {
            assert(v@ =~= head.add(idc@.take(k + 1)));
        }
        k += 1;
    }
    proof {
        assert(idc@.take(idc@.len() as int) =~= idc@);
    }
    v.push('|');
    string_from_chars(v.as_slice())
}

/// Prefix strings ready to match `PrimaryId`s against (`PrimaryId` has the
/// shape `Platform|Uid|Splitscreen`): `"Steam|<id>|"` for the detected
/// SteamID64, then `"Epic|<id>|"` for each detected Epic AccountId.
pub fn local_platform_candidates(steam_id: Option<String>, epic_ids: Vec<String>) -> (out: Vec<String>)
    ensures
        out@.map_values(|c: String| c@) == candidates_for(
            match steam_id { Some(id) => Some(id@), None => None },
            epic_ids@.map_values(|e: String| e@),
        ),
{
    let steam = vec!['S', 't', 'e', 'a', 'm'];
    let epic = vec!['E', 'p', 'i', 'c'];
    proof {
        assert(steam@ =~= steam_chars());
        assert(epic@ =~= epic_chars());
    }
    let mut out: Vec<String> = Vec::new();
    match &steam_id {
        Some(id) => {
            out.push(prefixed(steam.as_slice(), id.as_str()));
        },
        None => {},
    }
    let ghost head = out@.map_values(|c: String| c@);
    let ghost ids = epic_ids@.map_values(|e: String| e@);
    let mut i: usize = 0;
    while i < epic_ids.len()
        invariant
            i <= epic_ids@.len(),
            epic@ == epic_chars(),
            ids == epic_ids@.map_values(|e: String| e@),
            out@.map_values(|c: String| c@)
                == head.add(ids.take(i as int).map_values(|id: Seq<char>| candidate_prefix(epic_chars(), id))),
        decreases epic_ids@.len() - i,
    {
        let c = prefixed(epic.as_slice(), epic_ids[i].as_str());
        let ghost prev = out@;
        out.push(c);
        proof {
            assert(ids[i as int] == epic_ids@[i as int]@);
            assert(out@.map_values(|c: String| c@) =~= prev.map_values(|c: String| c@).push(c@));
            assert(ids.take(i + 1).map_values(|id: Seq<char>| candidate_prefix(epic_chars(), id))
                =~= ids.take(i as int).map_values(|id: Seq<char>| candidate_prefix(epic_chars(), id))
                    .push(candidate_prefix(epic_chars(), ids[i as int])));
        }
        i += 1;
    }
    proof {
        assert(ids.take(ids.len() as int) =~= ids);
    }
    out
}

// ---------- Epic saved-data file names --------------------------------------

/// The AccountId a file in Epic's `Saved\Data` folder stands for: the file
/// must be named `<id>.dat` with `<id>` AccountId-shaped. Other names
/// (`OC_<id>.dat` cache shadows, upper-case stems, other extensions) stand for
/// none.
pub open spec fn epic_id_of_file(name: Seq<char>) -> Option<Seq<char>> {
    if name.len() == 36 && name.skip(32) == seq!['.', 'd', 'a', 't'] && is_epic_account_id_chars(name.take(32)) {
        Some(name.take(32))
    } else {
        None
    }
}

/// The AccountIds of a list of file names, in order.
pub open spec fn epic_ids_of_files(names: Seq<Seq<char>>) -> Seq<Seq<char>>
    decreases names.len(),
{
    if names.len() == 0 {
        seq![]
    } else {
        let head = epic_ids_of_files(names.drop_last());
        match epic_id_of_file(names.last()) {
            Some(id) => head.push(id),
            None => head,
        }
    }
}

/// Keep the AccountId-shaped stems of `*.dat` file names (the names of the
/// regular files of Epic's `Saved\Data` folder), in the order given.
pub fn epic_account_ids_in(file_names: &[String]) -> (ids: Vec<String>)
    ensures
        ids@.map_values(|s: String| s@) == epic_ids_of_files(file_names@.map_values(|s: String| s@)),
{
    let ghost names = file_names@.map_values(|s: String| s@);
    let dat = vec!['.', 'd', 'a', 't'];
    proof {
        assert(dat@ =~= seq!['.', 'd', 'a', 't']);
    }
    let mut out: Vec<String> = Vec::new();
    let mut i: usize = 0;
    while i < file_names.len()
        invariant
            i <= file_names@.len(),
            names == file_names@.map_values(|s: String| s@),
            dat@ == seq!['.', 'd', 'a', 't'],
            out@.map_values(|s: String| s@) == epic_ids_of_files(names.take(i as int)),
        decreases file_names@.len() - i,
    {
        let name = chars_of(file_names[i].as_str());
        proof {
            assert(names[i as int] == name@);
            assert(names.take(i + 1).drop_last() =~= names.take(i as int));
        }
        if name.len() == 36 {
            let stem = copy_range(name.as_slice(), 0, 32);
            let ext = copy_range(name.as_slice(), 32, 36);
            proof {
                assert(stem@ =~= name@.take(32));
                assert(ext@ =~= name@.skip(32));
            }
            if chars_eq(ext.as_slice(), dat.as_slice()) && chars_is_epic_account_id(stem.as_slice()) {
                let ghost prev = out@;
                out.push(string_from_chars(stem.as_slice()));
                proof {
                    assert(out@.map_values(|s: String| s@) =~= prev.map_values(|s: String| s@).push(stem@));
                }
            }
        }
        i += 1;
    }
    proof {
        assert(names.take(names.len() as int) =~= names);
    }
    out
}

/// One candidate per detected account, in order: the SteamID's first when one
/// was detected, then one for every Epic AccountId, each spelled as the
/// platform name, `|`, the id and a closing `|`.
pub proof fn lemma_one_candidate_per_account(steam_id: Option<Seq<char>>, epic_ids: Seq<Seq<char>>)
    ensures
        candidates_for(steam_id, epic_ids).len() == (if steam_id is Some { 1int } else { 0int }) + epic_ids.len(),
        steam_id matches Some(id) ==> candidates_for(steam_id, epic_ids)[0]
            == seq!['S', 't', 'e', 'a', 'm', '|'].add(id).add(seq!['|']),
        forall|k: int| 0 <= k < epic_ids.len() ==> candidates_for(steam_id, epic_ids)[
            (if steam_id is Some { 1int } else { 0int }) + k] == seq!['E', 'p', 'i', 'c', '|'].add(#[trigger] epic_ids[k]).add(seq!['|']),
{
    let c = candidates_for(steam_id, epic_ids);
    let off: int = if steam_id is Some { 1int } else { 0int };
    match steam_id {
        Some(id) => {
            assert(c[0] == candidate_prefix(steam_chars(), id));
            assert(candidate_prefix(steam_chars(), id) =~= seq!['S', 't', 'e', 'a', 'm', '|'].add(id).add(seq!['|']));
        },
        None => {},
    }
    assert forall|k: int| 0 <= k < epic_ids.len() implies c[off + k]
        == seq!['E', 'p', 'i', 'c', '|'].add(#[trigger] epic_ids[k]).add(seq!['|']) by {
        assert(c[off + k] == candidate_prefix(epic_chars(), epic_ids[k]));
        assert(candidate_prefix(epic_chars(), epic_ids[k]) =~= seq!['E', 'p', 'i', 'c', '|'].add(epic_ids[k]).add(seq!['|']));
    }
}

/// The trailing `|` makes platform prefixes exact: when two ids hold no `|`,
/// the prefix for one matches a `PrimaryId` built on the other only when the
/// ids are equal (`Epic|ab|` never matches `Epic|abcdef|0`).
pub proof fn lemma_candidate_prefix_is_exact(platform: Seq<char>, a: Seq<char>, b: Seq<char>, tail: Seq<char>)
    requires
        forall|i: int| 0 <= i < a.len() ==> a[i] != '|',
        forall|i: int| 0 <= i < b.len() ==> b[i] != '|',
        starts_with(candidate_prefix(platform, b).add(tail), candidate_prefix(platform, a)),
    ensures
        a == b,
{
    let pa = candidate_prefix(platform, a);
    let pid = candidate_prefix(platform, b).add(tail);
    let n: int = platform.len() as int + 1;
    assert(pid.take(pa.len() as int) == pa);
    if a.len() < b.len() {
        assert(pa[n + a.len() as int] == '|');
        assert(pid[n + a.len() as int] == b[a.len() as int]);
        assert(pid.take(pa.len() as int)[n + a.len() as int] == pid[n + a.len() as int]);
    } else if a.len() > b.len() {
        assert(pid[n + b.len() as int] == '|');
        assert(pa[n + b.len() as int] == a[b.len() as int]);
        assert(pid.take(pa.len() as int)[n + b.len() as int] == pid[n + b.len() as int]);
    } else {
        assert forall|i: int| 0 <= i < a.len() implies a[i] == b[i] by {
            assert(pa[n + i] == a[i]);
            assert(pid[n + i] == b[i]);
            assert(pid.take(pa.len() as int)[n + i] == pid[n + i]);
        }
        assert(a =~= b);
    }
}

} // verus!
