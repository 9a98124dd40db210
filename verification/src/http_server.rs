//! Rules of the embedded overlay server: which theme folder a settings value
//! may name, which user-theme file a request may reach, and how the active
//! theme's page is rebased onto its folder. Serving is the app's part.

use vstd::prelude::*;
use crate::text::{chars_eq, chars_of, copy_range, string_from_chars};

verus! {

/// Characters allowed in a theme name, which maps to a folder name.
pub open spec fn is_theme_char(c: char) -> bool {
    ('a' <= c && c <= 'z') || ('A' <= c && c <= 'Z') || ('0' <= c && c <= '9') || c == '-' || c == '_'
}

/// A non-empty name made only of ASCII letters, digits, `-` and `_`.
pub open spec fn is_safe_theme_name(s: Seq<char>) -> bool {
    s.len() > 0 && forall|i: int| 0 <= i < s.len() ==> is_theme_char(#[trigger] s[i])
}

pub fn chars_are_theme_name(s: &[char]) -> (r: bool)
    ensures
        r == is_safe_theme_name(s@),
{
    if s.len() == 0 {
        return false;
    }
    let mut i: usize = 0;
    while i < s.len()
        invariant
            i <= s@.len(),
            forall|k: int| 0 <= k < i ==> is_theme_char(#[trigger] s@[k]),
        decreases s@.len() - i,
    {
        let c = s[i];
        if !(('a' <= c && c <= 'z') || ('A' <= c && c <= 'Z') || ('0' <= c && c <= '9') || c == '-' || c == '_') {
            return false;
        }
        i += 1;
    }
    true
}

/// Theme names are mapped to folders, so they must contain only safe ASCII.
/// Anything else falls back to the default theme, `circle`, to avoid path
/// traversal or accidental 404s when settings get hand-edited.
pub fn sanitize_theme(raw: &str) -> (r: &str)
    ensures
        r@ == if is_safe_theme_name(raw@) { raw@ } else { "circle"@ },
        is_safe_theme_name(r@),
{
    let c = chars_of(raw);
    if chars_are_theme_name(c.as_slice()) {
        raw
    } else {
        proof {
            reveal_strlit("circle");
            assert(is_safe_theme_name("circle"@));
        }
        "circle"
    }
}

/// Position of the first occurrence of `pat` in `s` at or after `i`.
pub open spec fn find_seq_from(s: Seq<char>, pat: Seq<char>, i: int) -> Option<int>
    decreases s.len() + 1 - i,
{
    if i < 0 || i + pat.len() > s.len() {
        None
    } else if s.subrange(i, i + pat.len()) == pat {
        Some(i)
    } else {
        find_seq_from(s, pat, i + 1)
    }
}

/// Whether `pat` occurs anywhere in `s`.
pub open spec fn contains_seq(s: Seq<char>, pat: Seq<char>) -> bool {
    find_seq_from(s, pat, 0) is Some
}

fn occurs_at_exec(s: &[char], pat: &[char], i: usize) -> (r: bool)
    requires
        i + pat@.len() <= s@.len(),
    ensures
        r == (s@.subrange(i as int, i + pat@.len()) == pat@),
{
    let mut k: usize = 0;
    while k < pat.len()
        invariant
            i + pat.len() <= s.len(),
            k <= pat@.len(),
            forall|m: int| 0 <= m < k ==> s@[i + m] == pat@[m],
        decreases pat@.len() - k,
    {
        if s[i + k] != pat[k] {
            assert(s@.subrange(i as int, i + pat@.len())[k as int] != pat@[k as int]);
            return false;
        }
        k += 1;
    }
    proof {
        assert(s@.subrange(i as int, i + pat@.len()) =~= pat@);
    }
    true
}

/// Position of the first occurrence of `pat` in `s`.
fn find_seq(s: &[char], pat: &[char]) -> (r: Option<usize>)
    ensures
        match r {
            Some(i) => find_seq_from(s@, pat@, 0) == Some(i as int),
            None => find_seq_from(s@, pat@, 0) is None,
        },
{
    if pat.len() > s.len() {
        return None;
    }
    let last = s.len() - pat.len();
    let mut i: usize = 0;
    loop
        invariant
            last + pat.len() == s.len(),
            i <= last,
            find_seq_from(s@, pat@, 0) == find_seq_from(s@, pat@, i as int),
        decreases last - i,
    {
        if occurs_at_exec(s, pat, i) {
            return Some(i);
        }
        if i == last {
            return None;
        }
        i += 1;
    }
}

/// The path below the user themes folder that an overlay request for `rel`
/// may read from disk: only `themes/<...>` requests, and never one holding
/// `..` or a backslash.
pub open spec fn user_theme_rel_path(rel: Seq<char>) -> Option<Seq<char>> {
    let prefix = "themes/"@;
    if rel.len() >= prefix.len() && rel.take(prefix.len() as int) == prefix {
        let rest = rel.skip(prefix.len() as int);
        if contains_seq(rest, ".."@) || contains_seq(rest, "\\"@) {
            None
        } else {
            Some(rest)
        }
    } else {
        None
    }
}

/// Decide whether an overlay request `rel` may fall back to the user themes
/// folder on disk, and with which path below it. The caller still checks
/// that the resolved file stays inside that folder.
pub fn user_theme_path(rel: &str) -> (r: Option<String>)
    ensures
        match r {
            Some(p) => user_theme_rel_path(rel@) == Some(p@),
            None => user_theme_rel_path(rel@) is None,
        },
{
    let c = chars_of(rel);
    let prefix = chars_of("themes/");
    if c.len() < prefix.len() {
        return None;
    }
    let head = copy_range(c.as_slice(), 0, prefix.len());
    proof {
        assert(head@ =~= c@.take(prefix@.len() as int));
    }
    if !chars_eq(head.as_slice(), prefix.as_slice()) {
        return None;
    }
    let rest = copy_range(c.as_slice(), prefix.len(), c.len());
    proof {
        assert(rest@ =~= c@.skip(prefix@.len() as int));
    }
    let dots = chars_of("..");
    let backslash = chars_of("\\");
    if find_seq(rest.as_slice(), dots.as_slice()).is_some() || find_seq(rest.as_slice(), backslash.as_slice()).is_some() {
        return None;
    }
    Some(string_from_chars(rest.as_slice()))
}

/// `s` with its first occurrence of `pat` replaced by `rep` (`replacen(.., 1)`).
pub open spec fn replace_first(s: Seq<char>, pat: Seq<char>, rep: Seq<char>) -> Seq<char> {
    match find_seq_from(s, pat, 0) {
        Some(i) => s.take(i).add(rep).add(s.skip(i + pat.len())),
        None => s,
    }
}

/// What replaces the page's `<head>`: the same tag followed by a `<base>`
/// pointing at the theme's folder.
pub open spec fn head_with_base(theme: Seq<char>) -> Seq<char> {
    "<head>\n  <base href=\"/overlays/themes/"@.add(theme).add("/\">"@)
}

proof fn lemma_find_seq_bounds(s: Seq<char>, pat: Seq<char>, i: int)
    ensures
        find_seq_from(s, pat, i) matches Some(j) ==> i <= j && j + pat.len() <= s.len(),
    decreases s.len() + 1 - i,
{
    if !(i < 0 || i + pat.len() > s.len()) && s.subrange(i, i + pat.len()) != pat {
        lemma_find_seq_bounds(s, pat, i + 1);
    }
}

fn push_all(v: &mut Vec<char>, s: &[char], lo: usize, hi: usize)
    requires
        lo <= hi <= s@.len(),
    ensures
        final(v)@ == old(v)@.add(s@.subrange(lo as int, hi as int)),
{
    let ghost start = v@;
    let mut i = lo;
    while i < hi
        invariant
            lo <= i <= hi <= s@.len(),
            v@ == start.add(s@.subrange(lo as int, i as int)),
        decreases hi - i,
    {
        v.push(s[i]);
        proof {
            assert(v@ =~= start.add(s@.subrange(lo as int, i + 1)));
        }
        i += 1;
    }
}

/// Inject a `<base href>` right after the page's first `<head>` so every
/// relative path of the theme's HTML resolves inside the theme's folder.
pub fn inject_base_href(html: &str, theme: &str) -> (page: String)
    ensures
        page@ == replace_first(html@, "<head>"@, head_with_base(theme@)),
{
    let h = chars_of(html);
    let pat = chars_of("<head>");
    match find_seq(h.as_slice(), pat.as_slice()) {
        Some(i) => {
            proof {
                lemma_find_seq_bounds(h@, pat@, 0);
                assert(i + pat@.len() <= h@.len());
                assert(h@.len() == h.len());
            }
            let open_tag = chars_of("<head>\n  <base href=\"/overlays/themes/");
            let t = chars_of(theme);
            let close_tag = chars_of("/\">");
            let mut out: Vec<char> = Vec::new();
            push_all(&mut out, h.as_slice(), 0, i);
            push_all(&mut out, open_tag.as_slice(), 0, open_tag.len());
            push_all(&mut out, t.as_slice(), 0, t.len());
            push_all(&mut out, close_tag.as_slice(), 0, close_tag.len());
            push_all(&mut out, h.as_slice(), i + pat.len(), h.len());
            proof {
                assert(open_tag@.subrange(0, open_tag@.len() as int) =~= open_tag@);
                assert(t@.subrange(0, t@.len() as int) =~= t@);
                assert(close_tag@.subrange(0, close_tag@.len() as int) =~= close_tag@);
                assert(h@.subrange(0, i as int) =~= h@.take(i as int));
                assert(h@.subrange(i + pat@.len(), h@.len() as int) =~= h@.skip(i + pat@.len()));
                assert(out@ =~= h@.take(i as int).add(head_with_base(theme@)).add(h@.skip(i + pat@.len())));
            }
            string_from_chars(out.as_slice())
        },
        None => {
            string_from_chars(h.as_slice())
        },
    }
}

} // verus!
