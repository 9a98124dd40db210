//! Whether `RocketLeague.exe` is among the running processes. Taking the
//! process snapshot is the app's part (Windows API); the decision and the
//! decoding of the snapshot's names are here.

use vstd::prelude::*;
use crate::text::{chars_eq_ignore_ascii_case, chars_of, eq_ignore_ascii_case};

verus! {

/// The process we consider authoritative for "RL is running", compared
/// case-insensitively. Companion processes (`RocketLeague_BE.exe`,
/// `RocketLeagueOSS.exe`) are intentionally excluded.
pub open spec fn rl_process_name() -> Seq<char> {
    seq!['R', 'o', 'c', 'k', 'e', 't', 'L', 'e', 'a', 'g', 'u', 'e', '.', 'e', 'x', 'e']
}

/// True when some name of the snapshot equals `RocketLeague.exe` up to ASCII
/// case; prefixes, suffixes and companion processes do not count.
pub fn rl_process_alive_via(names: &[&str]) -> (alive: bool)
    ensures
        alive == exists|i: int| 0 <= i < names@.len() && eq_ignore_ascii_case(#[trigger] names@[i]@, rl_process_name()),
{
    let target = vec!['R', 'o', 'c', 'k', 'e', 't', 'L', 'e', 'a', 'g', 'u', 'e', '.', 'e', 'x', 'e'];
    proof {
        assert(target@ =~= rl_process_name());
    }
    let mut i: usize = 0;
    while i < names.len()
        invariant
            i <= names@.len(),
            target@ == rl_process_name(),
            forall|k: int| 0 <= k < i ==> !eq_ignore_ascii_case(#[trigger] names@[k]@, rl_process_name()),
        decreases names@.len() - i,
    {
        let n = chars_of(names[i]);
        if chars_eq_ignore_ascii_case(n.as_slice(), target.as_slice()) {
            return true;
        }
        i += 1;
    }
    false
}

/// Whether `u` is a UTF-16 surrogate code unit.
pub open spec fn is_surrogate(u: u16) -> bool {
    0xD800 <= u <= 0xDFFF
}

/// UTF-16 decoding with every unpaired surrogate replaced by U+FFFD.
pub open spec fn utf16_decode_lossy(units: Seq<u16>) -> Seq<char>
    decreases units.len(),
{
    if units.len() == 0 {
        seq![]
    } else {
        let u = units[0];
        if !is_surrogate(u) {
            seq![(u as u32) as char].add(utf16_decode_lossy(units.drop_first()))
        } else if u <= 0xDBFF && units.len() >= 2 && 0xDC00 <= units[1] <= 0xDFFF {
            let cp = 0x10000 + (u - 0xD800) * 0x400 + (units[1] - 0xDC00);
            seq![(cp as u32) as char].add(utf16_decode_lossy(units.skip(2)))
        } else {
            seq![0xFFFDu32 as char].add(utf16_decode_lossy(units.drop_first()))
        }
    }
}

/// Decodes UTF-16 with `String::from_utf16_lossy`, which, as documented,
/// decodes the units and replaces invalid data (unpaired surrogates) with
/// U+FFFD, the replacement character.
#[verifier::external_body]
fn string_from_utf16_lossy(units: &[u16]) -> (s: String)
    ensures
        s@ == utf16_decode_lossy(units@),
{
    String::from_utf16_lossy(units)
}

/// Index of the first NUL unit of `buf`, or its length.
pub open spec fn nul_terminated_len(buf: Seq<u16>) -> int
    decreases buf.len(),
{
    if buf.len() == 0 {
        0
    } else if buf[0] == 0 {
        0
    } else {
        1 + nul_terminated_len(buf.drop_first())
    }
}

proof fn lemma_nul_len(buf: Seq<u16>, i: int)
    requires
        0 <= i <= buf.len(),
        forall|k: int| 0 <= k < i ==> buf[k] != 0,
        i == buf.len() || buf[i] == 0,
    ensures
        nul_terminated_len(buf) == i,
    decreases i,
{
    if i > 0 {
        lemma_nul_len(buf.drop_first(), i - 1);
    }
}

/// Decode a NUL-terminated UTF-16 `szExeFile` field: the units before the
/// first NUL (all of them when there is none), lossily decoded.
pub fn decode_szexefile(buf: &[u16]) -> (name: String)
    ensures
        name@ == utf16_decode_lossy(buf@.take(nul_terminated_len(buf@))),
{
    let mut len: usize = 0;
    while len < buf.len() && buf[len] != 0
        invariant
            len <= buf@.len(),
            forall|k: int| 0 <= k < len ==> buf@[k] != 0,
        decreases buf@.len() - len,
    {
        len += 1;
    }
    proof {
        lemma_nul_len(buf@, len as int);
    }
    let mut units: Vec<u16> = Vec::new();
    let mut i: usize = 0;
    while i < len
        invariant
            len <= buf@.len(),
            i <= len,
            units@ == buf@.take(i as int),
        decreases len - i,
    {
        units.push(buf[i]);
        proof {
            assert(units@ =~= buf@.take(i + 1));
        }
        i += 1;
    }
    string_from_utf16_lossy(units.as_slice())
}

} // verus!
