//! The snapshot manager's decisions: when a snapshot is due, how snapshot
//! files are named, and which file among a directory's entries is the
//! latest. A name is `snapshot_<ordinal>.<tmap|bmap>`; the latest is the
//! highest ordinal any such name carries, and when both extensions exist
//! for it, the binary one is preferred for decoding.

use crate::num::{parse_u64, spec_parse_u64, spec_udec, u64_to_string};
use vstd::prelude::*;
use vstd::string::{StrSliceExecFns, StringExecFns};

verus! {

/// The snapshot policy state.
pub struct Snapshot {
    pub snapshot_dir: String,
    pub snapshot_interval: u64,
    pub last_snapshot_ordinal: u64,
}

/// The file name for a snapshot at `ordinal` with the given extension.
pub open spec fn spec_snapshot_name(ordinal: u64, ext: Seq<char>) -> Seq<char> {
    "snapshot_"@ + spec_udec(ordinal as nat) + "."@ + ext
}

/// What a directory entry's name stands for: `Some((ordinal, is_binary))`
/// for a well-formed snapshot name, `None` for anything else.
pub open spec fn spec_parse_snapshot_name(s: Seq<char>) -> Option<(u64, bool)> {
    if s.len() >= 15 && s.subrange(0, 9) == "snapshot_"@ && (s.subrange(s.len() - 5, s.len() as int)
        == ".tmap"@ || s.subrange(s.len() - 5, s.len() as int) == ".bmap"@) {
        match spec_parse_u64(s.subrange(9, s.len() - 5)) {
            Some(o) => Some((o, s.subrange(s.len() - 5, s.len() as int) == ".bmap"@)),
            None => None,
        }
    } else {
        None
    }
}

/// Whether `s` is a snapshot name carrying ordinal `o`.
pub open spec fn parses_to(s: Seq<char>, o: u64) -> bool {
    match spec_parse_snapshot_name(s) {
        Some(p) => p.0 == o,
        None => false,
    }
}

/// Whether `s` is a binary snapshot name carrying ordinal `o`.
pub open spec fn parses_bmap_at(s: Seq<char>, o: u64) -> bool {
    spec_parse_snapshot_name(s) == Some((o, true))
}

/// Whether two strings hold the same characters.
fn chars_equal(a: &str, b: &str) -> (r: bool)
    ensures
        r == (a@ == b@),
{
    let n = a.unicode_len();
    if n != b.unicode_len() {
        return false;
    }
    let mut i: usize = 0;
    while i < n
        invariant
            i <= n,
            n == a@.len(),
            n == b@.len(),
            forall|j: int| 0 <= j < i ==> a@[j] == b@[j],
        decreases n - i,
    {
        if a.get_char(i) != b.get_char(i) {
            return false;
        }
        i = i + 1;
    }
    proof {
        assert(a@ =~= b@);
    }
    true
}

/// Reads a directory entry's name back into the convention.
pub fn parse_snapshot_name(name: &str) -> (r: Option<(u64, bool)>)
    ensures
        r == spec_parse_snapshot_name(name@),
{
    let n = name.unicode_len();
    if n < 15 {
        return None;
    }
    let prefix = name.substring_char(0, 9);
    if !chars_equal(prefix, "snapshot_") {
        return None;
    }
    let ext = name.substring_char(n - 5, n);
    let is_bmap = chars_equal(ext, ".bmap");
    if !is_bmap && !chars_equal(ext, ".tmap") {
        return None;
    }
    let digits = name.substring_char(9, n - 5);
    match parse_u64(digits) {
        Some(o) => Some((o, is_bmap)),
        None => None,
    }
}

/// Picks the latest snapshot among directory entry names: the highest
/// ordinal any well-formed name carries, and whether a binary file exists
/// at that ordinal.
pub fn select_latest(names: &Vec<String>) -> (r: Option<(u64, bool)>)
    ensures
        match r {
            Some(best) => {
                &&& exists|j: int|
                    0 <= j < names@.len() && #[trigger] parses_to(names@[j]@, best.0)
                &&& forall|j: int|
                    0 <= j < names@.len() ==> match spec_parse_snapshot_name(
                        (#[trigger] names@[j])@,
                    ) {
                        Some(p) => p.0 <= best.0,
                        None => true,
                    }
                &&& best.1 == exists|j: int|
                    0 <= j < names@.len() && #[trigger] parses_bmap_at(names@[j]@, best.0)
            },
            None => forall|j: int|
                0 <= j < names@.len() ==> spec_parse_snapshot_name((#[trigger] names@[j])@)
                    is None,
        },
{
    let n = names.len();
    let mut have_best: bool = false;
    let mut best: u64 = 0;
    let mut best_bmap: bool = false;
    let mut i: usize = 0;
    while i < n
        invariant
            i <= n,
            n == names@.len(),
            !have_best ==> forall|j: int|
                0 <= j < i ==> spec_parse_snapshot_name((#[trigger] names@[j])@) is None,
            have_best ==> exists|j: int| 0 <= j < i && #[trigger] parses_to(names@[j]@, best),
            have_best ==> forall|j: int|
                0 <= j < i ==> match spec_parse_snapshot_name((#[trigger] names@[j])@) {
                    Some(p) => p.0 <= best,
                    None => true,
                },
            have_best ==> best_bmap == exists|j: int|
                0 <= j < i && #[trigger] parses_bmap_at(names@[j]@, best),
        decreases n - i,
    {
        match parse_snapshot_name(names[i].as_str()) {
            Some(parsed) => {
                let (o, is_bmap) = parsed;
                proof {
                    assert(parses_to(names@[i as int]@, o));
                }
                if !have_best || o > best {
                    have_best = true;
                    best = o;
                    best_bmap = is_bmap;
                    proof {
                        if is_bmap {
                            assert(parses_bmap_at(names@[i as int]@, best));
                        }
                    }
                } else if o == best {
                    if is_bmap {
                        best_bmap = true;
                        proof {
                            assert(parses_bmap_at(names@[i as int]@, best));
                        }
                    }
                }
            },
            None => {},
        }
        i = i + 1;
    }
    if have_best {
        Some((best, best_bmap))
    } else {
        None
    }
}

impl Snapshot {
    pub fn new(dir: &str, interval: u64) -> (s: Snapshot)
        ensures
            s.snapshot_dir@ == dir@,
            s.snapshot_interval == interval,
            s.last_snapshot_ordinal == 0,
    {
        Snapshot {
            snapshot_dir: dir.to_owned(),
            snapshot_interval: interval,
            last_snapshot_ordinal: 0,
        }
    }

    /// Decides whether a snapshot is due after an accepted write at
    /// `current_ordinal`: yes exactly when the ordinal is positive and at
    /// least the interval has passed since the last snapshot. Deciding yes
    /// records the snapshot as taken.
    pub fn should_snapshot(&mut self, current_ordinal: u64) -> (b: bool)
        ensures
            b == (current_ordinal > 0 && current_ordinal as int
                - old(self).last_snapshot_ordinal as int >= old(self).snapshot_interval as int),
            final(self).snapshot_dir == old(self).snapshot_dir,
            final(self).snapshot_interval == old(self).snapshot_interval,
            final(self).last_snapshot_ordinal == if b {
                current_ordinal
            } else {
                old(self).last_snapshot_ordinal
            },
    {
        if current_ordinal == 0 {
            return false;
        }
        let last = self.last_snapshot_ordinal;
        if current_ordinal >= last && current_ordinal - last >= self.snapshot_interval {
            self.last_snapshot_ordinal = current_ordinal;
            true
        } else {
            false
        }
    }

    /// The path of the snapshot file at `ordinal` with the given extension,
    /// under the manager's directory.
    pub fn snapshot_path(&self, ordinal: u64, extension: &str) -> (p: String)
        ensures
            p@ == self.snapshot_dir@ + "/"@ + spec_snapshot_name(ordinal, extension@),
    {
        let mut p = self.snapshot_dir.clone();
        p.append("/");
        p.append("snapshot_");
        let shown = u64_to_string(ordinal);
        p.append(shown.as_str());
        p.append(".");
        p.append(extension);
        proof {
            assert(p@ =~= self.snapshot_dir@ + "/"@ + spec_snapshot_name(ordinal, extension@));
        }
        p
    }
}

/// Naming a snapshot and parsing the name back yields the ordinal and the
/// extension's kind.
pub proof fn lemma_snapshot_name_round_trip(ordinal: u64)
    ensures
        spec_parse_snapshot_name(spec_snapshot_name(ordinal, "bmap"@)) == Some((ordinal, true)),
        spec_parse_snapshot_name(spec_snapshot_name(ordinal, "tmap"@)) == Some((ordinal, false)),
{
    reveal_strlit("snapshot_");
    reveal_strlit(".");
    reveal_strlit("bmap");
    reveal_strlit("tmap");
    reveal_strlit(".bmap");
    reveal_strlit(".tmap");
    crate::num::lemma_udec_shape(ordinal as nat);
    let d = spec_udec(ordinal as nat);
    let sb = spec_snapshot_name(ordinal, "bmap"@);
    assert(sb.len() == 9 + d.len() + 5);
    assert(sb.subrange(0, 9) =~= "snapshot_"@);
    assert(sb.subrange(sb.len() - 5, sb.len() as int) =~= ".bmap"@);
    assert(sb.subrange(sb.len() - 5, sb.len() as int) != ".tmap"@) by {
        assert(".bmap"@[1] != ".tmap"@[1]);
        assert(sb.subrange(sb.len() - 5, sb.len() as int)[1] == ".bmap"@[1]);
    }
    assert(sb.subrange(9, sb.len() - 5) =~= d);
    crate::num::lemma_u64_round_trip(ordinal);
    let st = spec_snapshot_name(ordinal, "tmap"@);
    assert(st.len() == 9 + d.len() + 5);
    assert(st.subrange(0, 9) =~= "snapshot_"@);
    assert(st.subrange(st.len() - 5, st.len() as int) =~= ".tmap"@);
    assert(st.subrange(st.len() - 5, st.len() as int) != ".bmap"@) by {
        assert(".tmap"@[1] != ".bmap"@[1]);
        assert(st.subrange(st.len() - 5, st.len() as int)[1] == ".tmap"@[1]);
    }
    assert(st.subrange(9, st.len() - 5) =~= d);
}

} // verus!
