//! What a folder scan keeps of each game: the current revision when its status is
//! defined, and otherwise the last valid data with an issue saying why.
use vstd::prelude::*;
use vstd::string::*;

use crate::library::{has_status_key, LibraryDefinitions, LibraryRevision};
use crate::records::{revision_same, GameRevision};
use crate::revisions::{has_id, RevisionSnapshot};
use crate::stores::has_current;

verus! {

/// A lowercase hexadecimal digit, for `d` below 16.
pub open spec fn hex_digit(d: u128) -> char {
    if d < 10 {
        (48 + d) as char
    } else {
        (87 + d) as char
    }
}

/// The hyphenated lowercase form of a UUID, such as `67e55044-10b1-426f-9247-bb680e5fe0c8`:
/// its 32 hexadecimal digits from the most significant, with hyphens after the 8th, 12th,
/// 16th and 20th digit.
pub open spec fn uuid_text(id: u128) -> Seq<char> {
    Seq::new(
        36,
        |i: int|
            if i == 8 || i == 13 || i == 18 || i == 23 {
                '-'
            } else {
                let k = if i < 8 {
                    i
                } else if i < 13 {
                    i - 1
                } else if i < 18 {
                    i - 2
                } else if i < 23 {
                    i - 3
                } else {
                    i - 4
                };
                hex_digit((id >> ((124 - 4 * k) as u128)) & 0xfu128)
            },
    )
}

/// `uuid::Uuid::from_u128(id).to_string()`: `Display` for `Uuid` writes the hyphenated
/// lowercase form of the big-endian bytes of the value.
#[verifier::external_body]
pub(crate) fn uuid_string(id: u128) -> (r: String)
    ensures
        r@ == uuid_text(id),
{
    uuid::Uuid::from_u128(id).to_string()
}

/// Why a game has no current revision.
#[derive(Debug, Clone, Copy, PartialEq, Eq, Structural)]
pub enum Reason {
    ConflictingEdits,
    FilesMissing,
    IncompleteHistory,
}

/// What the views do meanwhile.
#[derive(Debug, Clone, Copy, PartialEq, Eq, Structural)]
pub enum Action {
    KeepingLastValidData,
    OpenConflicts,
    WaitingForValidFiles,
}

/// What a scan makes of one game.
#[derive(Debug)]
pub enum GameScan {
    /// The current revision replaces the cached one.
    Current(GameRevision),
    /// The current revision uses a status the library does not define; the cached data stays.
    UnknownStatus { title: String, status: String },
    /// No current revision: the title to show, the name of a conflict to review, and why.
    Unavailable { title: String, conflict: Option<String>, reason: Reason, action: Action },
}

/// The title of the first head's revision.
pub open spec fn first_head_title(s: RevisionSnapshot<GameRevision>) -> Option<Seq<char>> {
    if s.heads@.len() > 0 && has_id(s.revisions@, s.heads@[0]) {
        Some(s.revisions@[choose|i: int| 0 <= i < s.revisions@.len() && (#[trigger] s.revisions@[i]).revision_id == s.heads@[0]].game.title@)
    } else {
        None
    }
}

/// The title shown for a game without a current revision: the cached title, the first
/// head's title, or the game ID.
pub open spec fn fallback_title(id: u128, s: RevisionSnapshot<GameRevision>, cached: Option<GameRevision>) -> Seq<char> {
    match cached {
        Some(c) => c.game.title@,
        None => match first_head_title(s) {
            Some(t) => t,
            None => uuid_text(id),
        },
    }
}

/// What a scan makes of game `id` from its revisions, the library's definitions and the
/// cached data.
pub open spec fn scanned(id: u128, s: RevisionSnapshot<GameRevision>, defs: LibraryDefinitions, cached: Option<GameRevision>, r: GameScan) -> bool {
    if has_current(s) {
        let cur = s.revisions@[choose|i: int| 0 <= i < s.revisions@.len() && (#[trigger] s.revisions@[i]).revision_id == s.heads@[0]];
        if has_status_key(defs.statuses@, cur.game.personal.status@) {
            r matches GameScan::Current(g) && revision_same(g, cur)
        } else {
            r matches GameScan::UnknownStatus { title, status } && title@ == cur.game.title@ && status@ == cur.game.personal.status@
        }
    } else {
        let conflict = s.heads@.len() > 1;
        let title = fallback_title(id, s, cached);
        &&& r matches GameScan::Unavailable { title: t, conflict: c, reason, action }
        &&& t@ == title
        &&& crate::records::opt_str(c) == if conflict {
            Some(
                match first_head_title(s) {
                    Some(n) => n,
                    None => title,
                },
            )
        } else {
            None
        }
        &&& reason == if conflict {
            Reason::ConflictingEdits
        } else if s.revisions@.len() == 0 {
            Reason::FilesMissing
        } else {
            Reason::IncompleteHistory
        }
        &&& action == if cached is Some {
            Action::KeepingLastValidData
        } else if conflict {
            Action::OpenConflicts
        } else {
            Action::WaitingForValidFiles
        }
    }
}

fn head_title(s: &RevisionSnapshot<GameRevision>) -> (r: Option<String>)
    requires
        s.wf(),
    ensures
        crate::records::opt_str(r) == first_head_title(*s),
{
    if s.heads.len() == 0 {
        return None;
    }
    match s.find(s.heads[0]) {
        Some(j) => {
            proof {
                let c = choose|i: int| 0 <= i < s.revisions@.len() && (#[trigger] s.revisions@[i]).revision_id == s.heads@[0];
                let ids = crate::revisions::ids_of(s.revisions@);
                if c < j {
                    assert(ids[c] < ids[j as int]);
                } else if c > j {
                    assert(ids[j as int] < ids[c]);
                }
            }
            Some(s.revisions[j].game.title.clone())
        },
        None => None,
    }
}

/// Decides what a scan keeps of game `id`.
pub fn scan_game(id: u128, snapshot: &RevisionSnapshot<GameRevision>, definitions: &LibraryDefinitions, cached: Option<&GameRevision>) -> (r: GameScan)
    requires
        snapshot.wf(),
    ensures
        scanned(id, *snapshot, *definitions, match cached {
            Some(c) => Some(*c),
            None => None,
        }, r),
{
    match snapshot.current() {
        Some(cur) => {
            proof {
                let c = choose|i: int| 0 <= i < snapshot.revisions@.len() && (#[trigger] snapshot.revisions@[i]).revision_id == snapshot.heads@[0];
                let j = choose|i: int| 0 <= i < snapshot.revisions@.len() && snapshot.revisions@[i] == *cur;
                let ids = crate::revisions::ids_of(snapshot.revisions@);
                if c < j {
                    assert(ids[c] < ids[j]);
                } else if c > j {
                    assert(ids[j] < ids[c]);
                }
            }
            if definitions.status(cur.game.personal.status.as_str()).is_some() {
                GameScan::Current(cur.dup())
            } else {
                GameScan::UnknownStatus { title: cur.game.title.clone(), status: cur.game.personal.status.clone() }
            }
        },
        None => {
            let first = head_title(snapshot);
            let title = match cached {
                Some(c) => c.game.title.clone(),
                None => match &first {
                    Some(t) => t.clone(),
                    None => uuid_string(id),
                },
            };
            let conflict_now = snapshot.has_conflict();
            let conflict = if conflict_now {
                Some(match first {
                    Some(n) => n,
                    None => title.clone(),
                })
            } else {
                None
            };
            let reason = if conflict_now {
                Reason::ConflictingEdits
            } else if snapshot.revisions.len() == 0 {
                Reason::FilesMissing
            } else {
                Reason::IncompleteHistory
            };
            let action = if cached.is_some() {
                Action::KeepingLastValidData
            } else if conflict_now {
                Action::OpenConflicts
            } else {
                Action::WaitingForValidFiles
            };
            GameScan::Unavailable { title, conflict, reason, action }
        },
    }
}

} // verus!

verus! {

pub open spec fn reason_text(r: Reason) -> Seq<char> {
    match r {
        Reason::ConflictingEdits => "conflicting edits"@,
        Reason::FilesMissing => "files missing"@,
        Reason::IncompleteHistory => "incomplete history"@,
    }
}

pub open spec fn action_text(a: Action) -> Seq<char> {
    match a {
        Action::KeepingLastValidData => "keeping last valid data"@,
        Action::OpenConflicts => "open Conflicts to review"@,
        Action::WaitingForValidFiles => "waiting for valid files"@,
    }
}

impl GameScan {
    /// The issue a scan reports for this game, if any.
    pub fn issue(&self) -> (r: Option<String>)
        ensures
            crate::records::opt_str(r) == match *self {
                GameScan::Current(_) => None,
                GameScan::UnknownStatus { title, status } => Some(title@ + ": unknown status '"@ + status@ + "'; keeping last valid data."@),
                GameScan::Unavailable { title, reason, action, .. } => Some(title@ + ": "@ + reason_text(reason) + "; "@ + action_text(action) + "."@),
            },
    {
        match self {
            GameScan::Current(_) => None,
            GameScan::UnknownStatus { title, status } => {
                let mut s = title.clone();
                s.append(": unknown status '");
                s.append(status.as_str());
                s.append("'; keeping last valid data.");
                Some(s)
            },
            GameScan::Unavailable { title, reason, action, .. } => {
                let mut s = title.clone();
                s.append(": ");
                s.append(match reason {
                    Reason::ConflictingEdits => "conflicting edits",
                    Reason::FilesMissing => "files missing",
                    Reason::IncompleteHistory => "incomplete history",
                });
                s.append("; ");
                s.append(match action {
                    Action::KeepingLastValidData => "keeping last valid data",
                    Action::OpenConflicts => "open Conflicts to review",
                    Action::WaitingForValidFiles => "waiting for valid files",
                });
                s.append(".");
                Some(s)
            },
        }
    }
}

/// The cached games belong to another library than the current definitions.
pub fn library_changed(cached: &Option<LibraryRevision>, current: &LibraryRevision) -> (r: bool)
    ensures
        r == (cached matches Some(o) && o.library_id != current.library_id),
{
    match cached {
        Some(o) => o.library_id != current.library_id,
        None => false,
    }
}

/// The games a view shows: every cached game that is not archived, in order.
pub open spec fn not_archived(games: Seq<GameRevision>, n: nat) -> Seq<int>
    decreases n,
{
    if n == 0 {
        Seq::empty()
    } else {
        not_archived(games, (n - 1) as nat) + if !games[n - 1].deleted {
            seq![n - 1]
        } else {
            Seq::empty()
        }
    }
}

pub fn shown_games(games: &Vec<GameRevision>) -> (r: Vec<GameRevision>)
    ensures
        r.len() == not_archived(games@, games.len() as nat).len(),
        forall|a: int| 0 <= a < r.len() ==> revision_same(#[trigger] r@[a], games@[not_archived(games@, games.len() as nat)[a]]),
{
    let mut r: Vec<GameRevision> = Vec::new();
    let mut i: usize = 0;
    while i < games.len()
        invariant
            i <= games.len(),
            r.len() == not_archived(games@, i as nat).len(),
            forall|a: int| 0 <= a < r.len() ==> revision_same(#[trigger] r@[a], games@[not_archived(games@, i as nat)[a]]),
        decreases games.len() - i,
    {
        let ghost before = not_archived(games@, i as nat);
        if !games[i].deleted {
            r.push(games[i].dup());
        }
        proof {
            let after = not_archived(games@, (i + 1) as nat);
            assert forall|a: int| 0 <= a < r.len() implies revision_same(#[trigger] r@[a], games@[after[a]]) by {
                if a < before.len() {
                    assert(after[a] == before[a]);
                }
            }
        }
        i += 1;
    }
    r
}

} // verus!

verus! {

/// The IDs are in strictly increasing order.
pub open spec fn increasing_ids(s: Seq<u128>) -> bool {
    forall|i: int, j: int| 0 <= i < j < s.len() ==> s[i] < s[j]
}

/// Adds `x` to a strictly increasing list, keeping it so.
fn insert_sorted(out: &mut Vec<u128>, x: u128)
    requires
        increasing_ids(old(out)@),
    ensures
        increasing_ids(final(out)@),
        forall|y: u128| final(out)@.contains(y) <==> (old(out)@.contains(y) || y == x),
{
    let mut j: usize = 0;
    while j < out.len() && out[j] < x
        invariant
            out@ == old(out)@,
            increasing_ids(out@),
            j <= out.len(),
            forall|k: int| 0 <= k < j ==> out@[k] < x,
        decreases out.len() - j,
    {
        j += 1;
    }
    if j < out.len() && out[j] == x {
        assert(out@[j as int] == x);
        return;
    }
    let ghost before = out@;
    assert(before == old(out)@);
    out.insert(j, x);
    proof {
        assert(out@ =~= before.subrange(0, j as int).push(x) + before.subrange(j as int, before.len() as int));
        assert forall|a: int, b: int| 0 <= a < b < out@.len() implies out@[a] < out@[b] by {
            if a < j && b > j {
                assert(out@[b] == before[b - 1]);
                assert(before[b - 1] >= before[j as int] || b - 1 == j);
            }
            if a == j && b > j {
                assert(out@[b] == before[b - 1]);
                assert(before[j as int] > x);
            }
            if a > j {
                assert(out@[a] == before[a - 1] && out@[b] == before[b - 1]);
            }
        }
        assert forall|y: u128| out@.contains(y) <==> (before.contains(y) || y == x) by {
            if out@.contains(y) {
                let k = choose|k: int| 0 <= k < out@.len() && out@[k] == y;
                if k < j {
                    assert(before[k] == y);
                } else if k > j {
                    assert(before[k - 1] == y);
                }
            }
            if before.contains(y) {
                let k = choose|k: int| 0 <= k < before.len() && before[k] == y;
                if k < j {
                    assert(out@[k] == y);
                } else {
                    assert(out@[k + 1] == y);
                }
            }
            if y == x {
                assert(out@[j as int] == x);
            }
        }
        assert(forall|y: u128| out@.contains(y) <==> (old(out)@.contains(y) || y == x));
    }
}

/// The games a scan looks at: every ID found in the folder and every ID in the index, each
/// once, in increasing order. A game that vanished from the folder is still looked at, so
/// it keeps its last valid data.
pub fn scan_ids(found: &Vec<u128>, cached: &Vec<u128>) -> (r: Vec<u128>)
    ensures
        increasing_ids(r@),
        forall|y: u128| r@.contains(y) <==> (found@.contains(y) || cached@.contains(y)),
{
    let mut out: Vec<u128> = Vec::new();
    let mut i: usize = 0;
    while i < found.len()
        invariant
            i <= found.len(),
            increasing_ids(out@),
            forall|y: u128| out@.contains(y) <==> (exists|k: int| 0 <= k < i && #[trigger] found@[k] == y),
        decreases found.len() - i,
    {
        insert_sorted(&mut out, found[i]);
        proof {
            assert forall|y: u128| out@.contains(y) <==> (exists|k: int| 0 <= k < i + 1 && #[trigger] found@[k] == y) by {
                if y == found@[i as int] {
                    assert(found@[i as int] == y);
                }
            }
        }
        i += 1;
    }
    let mut c: usize = 0;
    while c < cached.len()
        invariant
            c <= cached.len(),
            increasing_ids(out@),
            forall|y: u128| out@.contains(y) <==> (found@.contains(y) || exists|k: int| 0 <= k < c && #[trigger] cached@[k] == y),
        decreases cached.len() - c,
    {
        insert_sorted(&mut out, cached[c]);
        proof {
            assert forall|y: u128| out@.contains(y) <==> (found@.contains(y) || exists|k: int| 0 <= k < c + 1 && #[trigger] cached@[k] == y) by {
                if y == cached@[c as int] {
                    assert(cached@[c as int] == y);
                }
            }
        }
        c += 1;
    }
    out
}

} // verus!
