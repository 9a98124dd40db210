//! Discovery rules for theme manifests: which embedded asset paths are a
//! bundled theme's manifest and under which id, which user theme folders
//! count, and how the two sources merge (user themes win on conflicting ids,
//! one theme per id). Reading and parsing the manifests is the app's part.

use vstd::prelude::*;
use crate::text::{chars_eq, chars_of, chars_starts_with, copy_range, find_char_from, find_from, starts_with, string_from_chars};

verus! {

/// Manifest schema version assumed when a manifest does not state one.
pub fn default_manifest_version() -> (v: u32)
    ensures
        v == 1,
{
    1
}

/// The theme id an embedded asset path stands for: the path (without a
/// leading `themes/`) must be `<id>/theme.json`, with `<id>` not starting with
/// `_` (template and shared folders).
pub open spec fn bundled_theme_id_of(path: Seq<char>) -> Option<Seq<char>> {
    let rel = if starts_with(path, "themes/"@) { path.skip("themes/"@.len() as int) } else { path };
    let k = find_from(rel, 0, '/');
    if k >= rel.len() {
        None
    } else {
        let id = rel.take(k);
        if id.len() > 0 && id[0] == '_' {
            None
        } else if rel.skip(k + 1) == "theme.json"@ {
            Some(id)
        } else {
            None
        }
    }
}

/// The bundled theme id of an embedded asset path, if it is a manifest.
pub fn bundled_theme_id(path: &str) -> (id: Option<String>)
    ensures
        match id {
            Some(i) => bundled_theme_id_of(path@) == Some(i@),
            None => bundled_theme_id_of(path@) is None,
        },
{
    let p = chars_of(path);
    let prefix = chars_of("themes/");
    let manifest = chars_of("theme.json");
    let rel = if chars_starts_with(p.as_slice(), prefix.as_slice()) {
        let r = copy_range(p.as_slice(), prefix.len(), p.len());
        proof {
            assert(r@ =~= p@.skip(prefix@.len() as int));
        }
        r
    } else {
        let r = copy_range(p.as_slice(), 0, p.len());
        proof {
            assert(r@ =~= p@);
        }
        r
    };
    let k = find_char_from(rel.as_slice(), 0, '/');
    if k >= rel.len() {
        return None;
    }
    let id = copy_range(rel.as_slice(), 0, k);
    let rest = copy_range(rel.as_slice(), k + 1, rel.len());
    proof {
        assert(id@ =~= rel@.take(k as int));
        assert(rest@ =~= rel@.skip(k + 1));
    }
    if id.len() > 0 && id[0] == '_' {
        return None;
    }
    if chars_eq(rest.as_slice(), manifest.as_slice()) {
        Some(string_from_chars(id.as_slice()))
    } else {
        None
    }
}

// ---------- merging the two sources ------------------------------------------

/// A user theme folder counts unless its name is empty or starts with `.`
/// (hidden) or `_` (templates).
pub open spec fn user_folder_ok(name: Seq<char>) -> bool {
    name.len() > 0 && name[0] != '.' && name[0] != '_'
}

/// Whether a user theme folder name counts (see [`user_folder_ok`]).
pub fn is_user_theme_folder(name: &str) -> (r: bool)
    ensures
        r == user_folder_ok(name@),
{
    let c = chars_of(name);
    c.len() > 0 && c[0] != '.' && c[0] != '_'
}

/// One discovered manifest before merging: a user theme folder's name, or a
/// bundled asset's path, and whether its manifest was read and parsed.
#[derive(Debug, Clone, PartialEq, Eq)]
pub struct ThemeCandidate {
    pub name: String,
    pub manifest_ok: bool,
}

/// Which source a merged theme comes from.
#[derive(Debug, Clone, Copy, PartialEq, Eq)]
pub enum ThemeOrigin {
    User,
    Bundled,
}

/// A theme kept by the merge: its source, its index in that source's list,
/// and its id.
#[derive(Debug, Clone, PartialEq, Eq)]
pub struct ThemePick {
    pub origin: ThemeOrigin,
    pub index: usize,
    pub id: String,
}

pub open spec fn pick_view(p: ThemePick) -> (ThemeOrigin, int, Seq<char>) {
    (p.origin, p.index as int, p.id@)
}

/// Some pick carries the id.
pub open spec fn has_id(picks: Seq<(ThemeOrigin, int, Seq<char>)>, id: Seq<char>) -> bool {
    exists|k: int| 0 <= k < picks.len() && (#[trigger] picks[k]).2 == id
}

/// The user themes kept, in folder order: a folder counts when its manifest
/// parsed and its name passes [`user_folder_ok`]; its id is the folder name,
/// and an id already kept is not kept again.
pub open spec fn user_picks(user: Seq<ThemeCandidate>) -> Seq<(ThemeOrigin, int, Seq<char>)>
    decreases user.len(),
{
    if user.len() == 0 {
        seq![]
    } else {
        let prev = user_picks(user.drop_last());
        let c = user.last();
        if c.manifest_ok && user_folder_ok(c.name@) && !has_id(prev, c.name@) {
            prev.push((ThemeOrigin::User, user.len() - 1, c.name@))
        } else {
            prev
        }
    }
}

/// All themes kept: the user ones, then the bundled manifests (by asset path,
/// see [`bundled_theme_id_of`]) whose manifest parsed and whose id is not
/// kept yet.
pub open spec fn merged_picks(user: Seq<ThemeCandidate>, bundled: Seq<ThemeCandidate>) -> Seq<(ThemeOrigin, int, Seq<char>)>
    decreases bundled.len(),
{
    if bundled.len() == 0 {
        user_picks(user)
    } else {
        let prev = merged_picks(user, bundled.drop_last());
        let c = bundled.last();
        match bundled_theme_id_of(c.name@) {
            Some(id) => if c.manifest_ok && !has_id(prev, id) {
                prev.push((ThemeOrigin::Bundled, bundled.len() - 1, id))
            } else {
                prev
            },
            None => prev,
        }
    }
}

fn contains_id(seen: &Vec<Vec<char>>, id: &[char]) -> (r: bool)
    ensures
        r == exists|k: int| 0 <= k < seen@.len() && (#[trigger] seen@[k])@ == id@,
{
    let mut k: usize = 0;
    while k < seen.len()
        invariant
            k <= seen@.len(),
            forall|m: int| 0 <= m < k ==> (#[trigger] seen@[m])@ != id@,
        decreases seen@.len() - k,
    {
        if chars_eq(seen[k].as_slice(), id) {
            return true;
        }
        k += 1;
    }
    false
}

/// Merge the user theme folders and the bundled manifests into one list of
/// themes, one per id, user themes first and winning on conflicting ids.
pub fn merge_themes(user: &[ThemeCandidate], bundled: &[ThemeCandidate]) -> (picks: Vec<ThemePick>)
    ensures
        picks@.map_values(|p: ThemePick| pick_view(p)) == merged_picks(user@, bundled@),
{
    let mut picks: Vec<ThemePick> = Vec::new();
    let mut seen: Vec<Vec<char>> = Vec::new();
    let mut i: usize = 0;
    while i < user.len()
        invariant
            i <= user@.len(),
            seen@.len() == picks@.len(),
            forall|k: int| 0 <= k < seen@.len() ==> (#[trigger] seen@[k])@ == picks@[k].id@,
            picks@.map_values(|p: ThemePick| pick_view(p)) == user_picks(user@.take(i as int)),
        decreases user@.len() - i,
    {
        proof {
            assert(user@.take(i + 1).drop_last() =~= user@.take(i as int));
        }
        let ghost prev = picks@.map_values(|p: ThemePick| pick_view(p));
        let c = &user[i];
        let name = chars_of(c.name.as_str());
        if c.manifest_ok && is_user_theme_folder(c.name.as_str()) {
            let dup = contains_id(&seen, name.as_slice());
            proof {
                if dup {
                    let k = choose|k: int| 0 <= k < seen@.len() && (#[trigger] seen@[k])@ == name@;
                    assert(prev[k].2 == c.name@);
                } else {
                    assert forall|k: int| 0 <= k < prev.len() implies (#[trigger] prev[k]).2 != c.name@ by {
                        assert(seen@[k]@ == picks@[k].id@);
                    }
                }
            }
            if !dup {
                picks.push(ThemePick { origin: ThemeOrigin::User, index: i, id: c.name.clone() });
                seen.push(name);
                proof {
                    assert(picks@.map_values(|p: ThemePick| pick_view(p)) =~= prev.push(
                        (ThemeOrigin::User, i as int, c.name@),
                    ));
                }
            }
        }
        i += 1;
    }
    proof {
        assert(user@.take(user@.len() as int) =~= user@);
    }
    let mut j: usize = 0;
    while j < bundled.len()
        invariant
            j <= bundled@.len(),
            seen@.len() == picks@.len(),
            forall|k: int| 0 <= k < seen@.len() ==> (#[trigger] seen@[k])@ == picks@[k].id@,
            picks@.map_values(|p: ThemePick| pick_view(p)) == merged_picks(user@, bundled@.take(j as int)),
        decreases bundled@.len() - j,
    {
        proof {
            assert(bundled@.take(j + 1).drop_last() =~= bundled@.take(j as int));
        }
        let ghost prev = picks@.map_values(|p: ThemePick| pick_view(p));
        let c = &bundled[j];
        match bundled_theme_id(c.name.as_str()) {
            Some(id) => {
                let idc = chars_of(id.as_str());
                if c.manifest_ok {
                    let dup = contains_id(&seen, idc.as_slice());
                    proof {
                        if dup {
                            let k = choose|k: int| 0 <= k < seen@.len() && (#[trigger] seen@[k])@ == idc@;
                            assert(prev[k].2 == id@);
                        } else {
                            assert forall|k: int| 0 <= k < prev.len() implies (#[trigger] prev[k]).2 != id@ by {
                                assert(seen@[k]@ == picks@[k].id@);
                            }
                        }
                    }
                    if !dup {
                        picks.push(ThemePick { origin: ThemeOrigin::Bundled, index: j, id });
                        seen.push(idc);
                        proof {
                            assert(picks@.map_values(|p: ThemePick| pick_view(p)) =~= prev.push(
                                (ThemeOrigin::Bundled, j as int, picks@[picks@.len() - 1].id@),
                            ));
                        }
                    }
                }
            },
            None => {},
        }
        j += 1;
    }
    proof {
        assert(bundled@.take(bundled@.len() as int) =~= bundled@);
    }
    picks
}

proof fn lemma_user_picks_shape(user: Seq<ThemeCandidate>)
    ensures
        forall|a: int, b: int| 0 <= a < b < user_picks(user).len() ==> user_picks(user)[a].2 != user_picks(user)[b].2,
        forall|k: int| 0 <= k < user_picks(user).len() ==> (#[trigger] user_picks(user)[k]).0 == ThemeOrigin::User,
    decreases user.len(),
{
    if user.len() > 0 {
        lemma_user_picks_shape(user.drop_last());
    }
}

proof fn lemma_user_picks_keep(user: Seq<ThemeCandidate>, u: int)
    requires
        0 <= u < user.len(),
        user[u].manifest_ok,
        user_folder_ok(user[u].name@),
    ensures
        has_id(user_picks(user), user[u].name@),
    decreases user.len(),
{
    let prev = user_picks(user.drop_last());
    if u == user.len() - 1 {
        if has_id(prev, user[u].name@) {
            let k = choose|k: int| 0 <= k < prev.len() && (#[trigger] prev[k]).2 == user[u].name@;
            assert(user_picks(user)[k] == prev[k]);
        } else {
            assert(user_picks(user)[prev.len() as int].2 == user[u].name@);
        }
    } else {
        assert(user.drop_last()[u] == user[u]);
        lemma_user_picks_keep(user.drop_last(), u);
        let k = choose|k: int| 0 <= k < prev.len() && (#[trigger] prev[k]).2 == user[u].name@;
        assert(user_picks(user)[k] == prev[k]);
    }
}

proof fn lemma_merged_picks_shape(user: Seq<ThemeCandidate>, bundled: Seq<ThemeCandidate>)
    ensures
        forall|a: int, b: int| 0 <= a < b < merged_picks(user, bundled).len()
            ==> merged_picks(user, bundled)[a].2 != merged_picks(user, bundled)[b].2,
        user_picks(user).len() <= merged_picks(user, bundled).len(),
        forall|k: int| 0 <= k < user_picks(user).len() ==> (#[trigger] merged_picks(user, bundled)[k]) == user_picks(user)[k],
        forall|k: int| user_picks(user).len() <= k < merged_picks(user, bundled).len()
            ==> (#[trigger] merged_picks(user, bundled)[k]).0 == ThemeOrigin::Bundled
            && has_id(merged_picks(user, bundled).take(k), merged_picks(user, bundled)[k].2) == false,
    decreases bundled.len(),
{
    if bundled.len() == 0 {
        lemma_user_picks_shape(user);
        let m = user_picks(user);
        assert forall|k: int| user_picks(user).len() <= k < m.len()
            implies (#[trigger] m[k]).0 == ThemeOrigin::Bundled && has_id(m.take(k), m[k].2) == false by {}
    } else {
        lemma_merged_picks_shape(user, bundled.drop_last());
        let prev = merged_picks(user, bundled.drop_last());
        let m = merged_picks(user, bundled);
        if m.len() > prev.len() {
            assert(m =~= prev.push(m[prev.len() as int]));
            assert(!has_id(prev, m[prev.len() as int].2));
            assert(m.take(prev.len() as int) =~= prev);
            assert forall|k: int| user_picks(user).len() <= k < m.len()
                implies (#[trigger] m[k]).0 == ThemeOrigin::Bundled && has_id(m.take(k), m[k].2) == false by {
                if k < prev.len() {
                    assert(m.take(k) =~= prev.take(k));
                }
            }
            assert forall|a: int, b: int| 0 <= a < b < m.len() implies m[a].2 != m[b].2 by {
                if b == prev.len() {
                    assert(prev[a] == m[a]);
                }
            }
        }
    }
}

/// Merged themes carry pairwise distinct ids: one theme per id.
pub proof fn lemma_merged_ids_distinct(user: Seq<ThemeCandidate>, bundled: Seq<ThemeCandidate>)
    ensures
        forall|a: int, b: int| 0 <= a < b < merged_picks(user, bundled).len()
            ==> merged_picks(user, bundled)[a].2 != merged_picks(user, bundled)[b].2,
{
    lemma_merged_picks_shape(user, bundled);
}

/// A user theme that counts (its manifest parsed, its folder name allowed) is
/// kept, and every kept theme under its id comes from the user folder: user
/// themes win on conflicting ids.
pub proof fn lemma_user_theme_wins(user: Seq<ThemeCandidate>, bundled: Seq<ThemeCandidate>, u: int)
    requires
        0 <= u < user.len(),
        user[u].manifest_ok,
        user_folder_ok(user[u].name@),
    ensures
        has_id(merged_picks(user, bundled), user[u].name@),
        forall|k: int| 0 <= k < merged_picks(user, bundled).len() && (#[trigger] merged_picks(user, bundled)[k]).2
            == user[u].name@ ==> merged_picks(user, bundled)[k].0 == ThemeOrigin::User,
{
    lemma_user_picks_keep(user, u);
    lemma_user_picks_shape(user);
    lemma_merged_picks_shape(user, bundled);
    let up = user_picks(user);
    let m = merged_picks(user, bundled);
    let w = choose|k: int| 0 <= k < up.len() && (#[trigger] up[k]).2 == user[u].name@;
    assert(m[w] == up[w]);
    assert forall|k: int| 0 <= k < m.len() && (#[trigger] m[k]).2 == user[u].name@ implies m[k].0 == ThemeOrigin::User by {
        if k >= up.len() {
            assert(m.take(k)[w] == m[w]);
            assert(has_id(m.take(k), m[k].2));
        } else {
            assert(m[k] == up[k]);
        }
    }
}

// ---------- ordering by label ------------------------------------------------

/// `a` sorts before or equal to `b` in the order `str::cmp` uses: code point
/// by code point, a proper prefix first (for UTF-8 text the byte order and
/// the code point order agree).
pub open spec fn lex_le(a: Seq<char>, b: Seq<char>) -> bool
    decreases a.len(),
{
    if a.len() == 0 {
        true
    } else if b.len() == 0 {
        false
    } else if a[0] != b[0] {
        (a[0] as int) < (b[0] as int)
    } else {
        lex_le(a.drop_first(), b.drop_first())
    }
}

/// Theme `ia` (label `la`) comes before theme `ib` (label `lb`) after a
/// stable sort by label: a smaller label, or the same label and an earlier
/// position.
pub open spec fn sorts_before(la: Seq<char>, ia: int, lb: Seq<char>, ib: int) -> bool {
    ||| lex_le(la, lb) && la != lb
    ||| la == lb && ia < ib
}

proof fn lemma_lex_total(a: Seq<char>, b: Seq<char>)
    ensures
        lex_le(a, b) || lex_le(b, a),
        lex_le(a, b) && lex_le(b, a) ==> a == b,
    decreases a.len(),
{
    if a.len() > 0 && b.len() > 0 && a[0] == b[0] {
        lemma_lex_total(a.drop_first(), b.drop_first());
        if a.drop_first() == b.drop_first() {
            assert(a =~= seq![a[0]] + a.drop_first());
            assert(b =~= seq![b[0]] + b.drop_first());
        }
    }
}

proof fn lemma_lex_trans(a: Seq<char>, b: Seq<char>, c: Seq<char>)
    requires
        lex_le(a, b),
        lex_le(b, c),
    ensures
        lex_le(a, c),
    decreases a.len(),
{
    if a.len() > 0 && b.len() > 0 && c.len() > 0 && a[0] == b[0] && b[0] == c[0] {
        lemma_lex_trans(a.drop_first(), b.drop_first(), c.drop_first());
    }
}

proof fn lemma_sorts_before_trans(la: Seq<char>, ia: int, lb: Seq<char>, ib: int, lc: Seq<char>, ic: int)
    requires
        sorts_before(la, ia, lb, ib),
        sorts_before(lb, ib, lc, ic),
    ensures
        sorts_before(la, ia, lc, ic),
{
    lemma_lex_total(la, lc);
    if lex_le(la, lb) && lex_le(lb, lc) {
        lemma_lex_trans(la, lb, lc);
        if la == lc {
            lemma_lex_total(la, lb);
        }
    }
}

/// `lex_le` on two labels.
fn label_le(a: &[char], b: &[char]) -> (r: bool)
    ensures
        r == lex_le(a@, b@),
{
    let mut i: usize = 0;
    proof {
        assert(a@.skip(0) =~= a@);
        assert(b@.skip(0) =~= b@);
    }
    while i < a.len() && i < b.len() && a[i] == b[i]
        invariant
            i <= a@.len(),
            i <= b@.len(),
            lex_le(a@, b@) == lex_le(a@.skip(i as int), b@.skip(i as int)),
        decreases a@.len() - i,
    {
        proof {
            assert(a@.skip(i as int).drop_first() =~= a@.skip(i + 1));
            assert(b@.skip(i as int).drop_first() =~= b@.skip(i + 1));
        }
        i += 1;
    }
    if i == a.len() {
        true
    } else if i == b.len() {
        false
    } else {
        a[i] < b[i]
    }
}

/// The positions of the themes, ordered by label with ties kept in place (a
/// stable sort by label).
pub fn sort_by_label(labels: &[String]) -> (order: Vec<usize>)
    ensures
        order@.len() == labels@.len(),
        forall|k: int| 0 <= k < order@.len() ==> order@[k] < labels@.len(),
        forall|a: int, b: int| 0 <= a < b < order@.len() ==> sorts_before(
            labels@[order@[a] as int]@,
            order@[a] as int,
            labels@[order@[b] as int]@,
            order@[b] as int,
        ),
{
    let mut chars: Vec<Vec<char>> = Vec::new();
    let mut j: usize = 0;
    while j < labels.len()
        invariant
            j <= labels@.len(),
            chars@.len() == j,
            forall|k: int| 0 <= k < j ==> (#[trigger] chars@[k])@ == labels@[k]@,
        decreases labels@.len() - j,
    {
        chars.push(chars_of(labels[j].as_str()));
        j += 1;
    }
    let mut order: Vec<usize> = Vec::new();
    let mut i: usize = 0;
    while i < labels.len()
        invariant
            i <= labels@.len(),
            chars@.len() == labels@.len(),
            forall|k: int| 0 <= k < chars@.len() ==> (#[trigger] chars@[k])@ == labels@[k]@,
            order@.len() == i,
            forall|k: int| 0 <= k < order@.len() ==> order@[k] < i,
            forall|a: int, b: int| 0 <= a < b < order@.len() ==> sorts_before(
                labels@[order@[a] as int]@,
                order@[a] as int,
                labels@[order@[b] as int]@,
                order@[b] as int,
            ),
        decreases labels@.len() - i,
    {
        let mut p: usize = 0;
        while p < order.len() && label_le(chars[order[p]].as_slice(), chars[i].as_slice())
            invariant
                p <= order@.len(),
                i < labels@.len(),
                chars@.len() == labels@.len(),
                forall|k: int| 0 <= k < chars@.len() ==> (#[trigger] chars@[k])@ == labels@[k]@,
                forall|k: int| 0 <= k < order@.len() ==> order@[k] < i,
                forall|k: int| 0 <= k < p ==> lex_le(labels@[order@[k] as int]@, labels@[i as int]@),
            decreases order@.len() - p,
        {
            p += 1;
        }
        let ghost old_order = order@;
        let ghost li = labels@[i as int]@;
        proof {
            if p < old_order.len() {
                let lp = labels@[old_order[p as int] as int]@;
                assert(!lex_le(lp, li));
                lemma_lex_total(lp, li);
                assert forall|k: int| p <= k < old_order.len() implies sorts_before(
                    li,
                    i as int,
                    labels@[old_order[k] as int]@,
                    old_order[k] as int,
                ) by {
                    if k > p {
                        lemma_sorts_before_trans(
                            li,
                            i as int,
                            lp,
                            old_order[p as int] as int,
                            labels@[old_order[k] as int]@,
                            old_order[k] as int,
                        );
                    }
                }
            }
        }
        order.insert(p, i);
        proof {
            assert forall|a: int, b: int| 0 <= a < b < order@.len() implies sorts_before(
                labels@[order@[a] as int]@,
                order@[a] as int,
                labels@[order@[b] as int]@,
                order@[b] as int,
            ) by {
                if b == p {
                    assert(order@[a] == old_order[a]);
                    assert(lex_le(labels@[old_order[a] as int]@, li));
                } else if a == p {
                    assert(order@[b] == old_order[b - 1]);
                } else {
                    let oa = if a < p { a } else { a - 1 };
                    let ob = if b < p { b } else { b - 1 };
                    assert(order@[a] == old_order[oa]);
                    assert(order@[b] == old_order[ob]);
                }
            }
        }
        i += 1;
    }
    order
}

} // verus!
