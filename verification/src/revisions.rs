//! Revision history shared by game records and library definitions. Valid
//! revisions stay available even when a partial, newer or misplaced file blocks
//! edits; a late remote branch is kept and becomes a conflict.
use vstd::prelude::*;
use vstd::string::*;

use crate::library::{library_eq, library_same, LibraryRevision};
use crate::records::{revision_eq, revision_same, GameRevision};

verus! {

/// A record that lives in a revision history.
pub trait Revision: Sized {
    spec fn spec_entity(&self) -> u128;

    spec fn spec_id(&self) -> u128;

    spec fn spec_parents(&self) -> Seq<u128>;

    spec fn spec_same(&self, other: &Self) -> bool;

    /// The game or library this revision belongs to.
    fn entity_id(&self) -> (r: u128)
        ensures
            r == self.spec_entity(),
    ;

    fn revision_id(&self) -> (r: u128)
        ensures
            r == self.spec_id(),
    ;

    fn parent_ids(&self) -> (r: &Vec<u128>)
        ensures
            r@ == self.spec_parents(),
    ;

    /// Both revisions hold the same content.
    fn same_content(&self, other: &Self) -> (r: bool)
        ensures
            r == self.spec_same(other),
    ;
}

impl Revision for GameRevision {
    open spec fn spec_entity(&self) -> u128 {
        self.game_id
    }

    open spec fn spec_id(&self) -> u128 {
        self.revision_id
    }

    open spec fn spec_parents(&self) -> Seq<u128> {
        self.parents@
    }

    open spec fn spec_same(&self, other: &Self) -> bool {
        revision_same(*self, *other)
    }

    fn entity_id(&self) -> (r: u128) {
        self.game_id
    }

    fn revision_id(&self) -> (r: u128) {
        self.revision_id
    }

    fn parent_ids(&self) -> (r: &Vec<u128>) {
        &self.parents
    }

    fn same_content(&self, other: &Self) -> (r: bool) {
        revision_eq(self, other)
    }
}

impl Revision for LibraryRevision {
    open spec fn spec_entity(&self) -> u128 {
        self.library_id
    }

    open spec fn spec_id(&self) -> u128 {
        self.revision_id
    }

    open spec fn spec_parents(&self) -> Seq<u128> {
        self.parents@
    }

    open spec fn spec_same(&self, other: &Self) -> bool {
        library_same(*self, *other)
    }

    fn entity_id(&self) -> (r: u128) {
        self.library_id
    }

    fn revision_id(&self) -> (r: u128) {
        self.revision_id
    }

    fn parent_ids(&self) -> (r: &Vec<u128>) {
        &self.parents
    }

    fn same_content(&self, other: &Self) -> (r: bool) {
        library_eq(self, other)
    }
}

/// A problem that blocks edits of a history until it is resolved.
#[derive(Debug, Clone, PartialEq, Eq)]
pub enum RevisionIssue {
    /// A file could not be read as a valid revision; the text names the file and the reason.
    File(String),
    /// A file holds a revision of another game or library than its location says.
    Misplaced(String),
    /// A file reuses a revision ID with different content.
    DifferentContent(String),
    /// The files belong to different libraries or games.
    MixedIdentity,
    /// A revision names a parent that no file holds.
    MissingParent(u128),
    /// The history misses a revision or contains a cycle.
    IncompleteOrCycle,
    /// No valid revision of the library is available.
    NoRevisions,
}

/// The revisions found for one game or library, their heads and what blocks edits.
pub struct RevisionSnapshot<T> {
    /// Sorted by revision ID, each ID once.
    pub revisions: Vec<T>,
    /// Sorted revision IDs that no revision names as a parent.
    pub heads: Vec<u128>,
    pub issues: Vec<RevisionIssue>,
}

pub open spec fn ids_of<T: Revision>(recs: Seq<T>) -> Seq<u128> {
    recs.map_values(|r: T| r.spec_id())
}

pub open spec fn increasing(s: Seq<u128>) -> bool {
    forall|i: int, j: int| 0 <= i < j < s.len() ==> s[i] < s[j]
}

pub open spec fn has_id<T: Revision>(recs: Seq<T>, id: u128) -> bool {
    exists|i: int| 0 <= i < recs.len() && (#[trigger] recs[i]).spec_id() == id
}

impl<T: Revision> RevisionSnapshot<T> {
    /// Revisions are kept in increasing ID order, so each ID appears once.
    pub open spec fn wf(&self) -> bool {
        increasing(ids_of(self.revisions@))
    }

    pub fn new() -> (r: Self)
        ensures
            r.revisions@.len() == 0,
            r.heads@.len() == 0,
            r.issues@.len() == 0,
            r.wf(),
    {
        RevisionSnapshot { revisions: Vec::new(), heads: Vec::new(), issues: Vec::new() }
    }

    /// Records a file that could not be read as a valid revision.
    pub fn add_issue(&mut self, issue: RevisionIssue)
        ensures
            final(self).revisions@ == old(self).revisions@,
            final(self).heads@ == old(self).heads@,
            final(self).issues@ == old(self).issues@.push(issue),
    {
        self.issues.push(issue);
    }

    /// Adds a revision read from the file `label`. A revision of another game or library
    /// than `expected_entity` names is refused; a repeated ID is dropped when its content
    /// matches and reported when it differs.
    pub fn add_revision(&mut self, record: T, expected_entity: Option<u128>, label: String)
        requires
            old(self).wf(),
        ensures
            final(self).wf(),
            final(self).heads@ == old(self).heads@,
            expected_entity matches Some(e) && record.spec_entity() != e ==> {
                &&& final(self).revisions@ == old(self).revisions@
                &&& final(self).issues@ == old(self).issues@.push(RevisionIssue::Misplaced(label))
            },
            !(expected_entity matches Some(e) && record.spec_entity() != e) && has_id(old(self).revisions@, record.spec_id()) ==> {
                &&& final(self).revisions@ == old(self).revisions@
                &&& exists|i: int| 0 <= i < old(self).revisions.len() && old(self).revisions@[i].spec_id() == record.spec_id() &&
                    final(self).issues@ == if old(self).revisions@[i].spec_same(&record) {
                        old(self).issues@
                    } else {
                        old(self).issues@.push(RevisionIssue::DifferentContent(label))
                    }
            },
            !(expected_entity matches Some(e) && record.spec_entity() != e) && !has_id(old(self).revisions@, record.spec_id()) ==> {
                &&& final(self).issues@ == old(self).issues@
                &&& exists|p: int| 0 <= p <= old(self).revisions.len() && final(self).revisions@ == old(self).revisions@.insert(p, record)
            },
    {
        if let Some(e) = expected_entity {
            if record.entity_id() != e {
                self.issues.push(RevisionIssue::Misplaced(label));
                return;
            }
        }
        let id = record.revision_id();
        let n = self.revisions.len();
        let mut p: usize = 0;
        while p < n && self.revisions[p].revision_id() < id
            invariant
                n == self.revisions.len(),
                p <= n,
                forall|k: int| 0 <= k < p ==> (#[trigger] self.revisions@[k]).spec_id() < id,
            decreases n - p,
        {
            p += 1;
        }
        if p < n && self.revisions[p].revision_id() == id {
            if !self.revisions[p].same_content(&record) {
                self.issues.push(RevisionIssue::DifferentContent(label));
            }
            return;
        }
        proof {
            let ids = ids_of(self.revisions@);
            assert forall|k: int| 0 <= k < n implies (#[trigger] self.revisions@[k]).spec_id() != id by {
                if k >= p {
                    if k > p {
                        assert(ids[p as int] < ids[k]);
                    }
                }
            }
        }
        let ghost before = self.revisions@;
        self.revisions.insert(p, record);
        proof {
            let after = self.revisions@;
            assert(after == before.insert(p as int, record));
            let ids = ids_of(after);
            let old_ids = ids_of(before);
            assert forall|a: int, b: int| 0 <= a < b < ids.len() implies ids[a] < ids[b] by {
                assert(ids[a] == after[a].spec_id());
                assert(ids[b] == after[b].spec_id());
                if a < p {
                    assert(after[a] == before[a]);
                    if b < p {
                        assert(after[b] == before[b]);
                        assert(old_ids[a] < old_ids[b]);
                    } else if b == p {
                    } else {
                        assert(after[b] == before[b - 1]);
                        assert(before[b - 1].spec_id() != id);
                        if b - 1 >= p {
                            if b - 1 > p {
                                assert(old_ids[p as int] < old_ids[b - 1]);
                            }
                        }
                        if a < b - 1 {
                            assert(old_ids[a] < old_ids[b - 1]);
                        }
                    }
                } else if a == p {
                    assert(after[b] == before[b - 1]);
                    assert(before[b - 1].spec_id() != id);
                    if b - 1 > p {
                        assert(old_ids[p as int] < old_ids[b - 1]);
                    }
                } else {
                    assert(after[a] == before[a - 1]);
                    assert(after[b] == before[b - 1]);
                    assert(old_ids[a - 1] < old_ids[b - 1]);
                }
            }
        }
    }
}

} // verus!

verus! {

/// Some revision names `id` as one of its parents.
pub open spec fn named_as_parent<T: Revision>(recs: Seq<T>, id: u128) -> bool {
    exists|i: int, k: int|
        0 <= i < recs.len() && 0 <= k < recs[i].spec_parents().len() && #[trigger] recs[i].spec_parents()[k] == id
}

/// The heads of a history: revision IDs, in order, that no revision names as a parent.
pub open spec fn head_ids<T: Revision>(recs: Seq<T>) -> Seq<u128> {
    ids_of(recs).filter(|id: u128| !named_as_parent(recs, id))
}

/// Parents named by `recs`, in order, that no revision of `all` holds.
pub open spec fn missing_parents<T: Revision>(recs: Seq<T>, all: Seq<T>) -> Seq<u128>
    decreases recs.len(),
{
    if recs.len() == 0 {
        Seq::empty()
    } else {
        missing_parents(recs.drop_last(), all) + recs.last().spec_parents().filter(
            |p: u128| !has_id(all, p),
        )
    }
}

/// Parent `k` of revision `i` is present and ranked lower than `i`.
pub open spec fn parent_below<T: Revision>(recs: Seq<T>, rank: Seq<nat>, i: int, k: int) -> bool {
    exists|j: int| 0 <= j < recs.len() && #[trigger] recs[j].spec_id() == recs[i].spec_parents()[k] && rank[j] < rank[i]
}

/// `rank` orders the history: every parent of a revision is present and ranked lower.
pub open spec fn ranked<T: Revision>(recs: Seq<T>, rank: Seq<nat>) -> bool {
    &&& rank.len() == recs.len()
    &&& forall|i: int, k: int|
        0 <= i < recs.len() && 0 <= k < recs[i].spec_parents().len() ==> #[trigger] parent_below(recs, rank, i, k)
}

/// Every parent is present and no revision descends from itself.
pub open spec fn complete_history<T: Revision>(recs: Seq<T>) -> bool {
    exists|rank: Seq<nat>| ranked(recs, rank)
}

/// The revisions belong to more than one game or library.
pub open spec fn mixed_identity<T: Revision>(recs: Seq<T>) -> bool {
    exists|i: int, j: int|
        0 <= i < recs.len() && 0 <= j < recs.len() && #[trigger] recs[i].spec_entity()
            != #[trigger] recs[j].spec_entity()
}

/// The issues that scanning a history adds, in the order they are reported.
pub open spec fn history_issues<T: Revision>(recs: Seq<T>) -> Seq<RevisionIssue> {
    (if mixed_identity(recs) {
        seq![RevisionIssue::MixedIdentity]
    } else {
        Seq::empty()
    }) + missing_parents(recs, recs).map_values(|p: u128| RevisionIssue::MissingParent(p)) + (
    if complete_history(recs) {
        Seq::empty()
    } else {
        seq![RevisionIssue::IncompleteOrCycle]
    })
}

/// Table entry `t[i][k]` locates parent `k` of revision `i`, or is None when it is missing.
pub open spec fn parent_table<T: Revision>(recs: Seq<T>, t: Seq<Seq<Option<usize>>>) -> bool {
    &&& t.len() == recs.len()
    &&& forall|i: int| 0 <= i < recs.len() ==> (#[trigger] t[i]).len() == recs[i].spec_parents().len()
    &&& forall|i: int, k: int|
        0 <= i < recs.len() && 0 <= k < recs[i].spec_parents().len() ==> match #[trigger] t[i][k] {
            Some(j) => j < recs.len() && recs[j as int].spec_id() == recs[i].spec_parents()[k],
            None => !has_id(recs, recs[i].spec_parents()[k]),
        }
}

/// Some settled revision has ID `p`.
pub open spec fn settled_id<T: Revision>(recs: Seq<T>, s: Seq<bool>, p: u128) -> bool {
    exists|j: int| 0 <= j < recs.len() && #[trigger] recs[j].spec_id() == p && s[j]
}

/// Every parent of revision `i` is present and settled.
pub open spec fn ready<T: Revision>(recs: Seq<T>, s: Seq<bool>, i: int) -> bool {
    forall|k: int|
        0 <= k < recs[i].spec_parents().len() ==> settled_id(recs, s, #[trigger] recs[i].spec_parents()[k])
}

pub open spec fn num_true(s: Seq<bool>) -> nat
    decreases s.len(),
{
    if s.len() == 0 {
        0
    } else {
        num_true(s.drop_last()) + if s.last() {
            1nat
        } else {
            0nat
        }
    }
}

proof fn lemma_num_true_bound(s: Seq<bool>)
    ensures
        num_true(s) <= s.len(),
    decreases s.len(),
{
    if s.len() > 0 {
        lemma_num_true_bound(s.drop_last());
    }
}

proof fn lemma_num_true_set(s: Seq<bool>, i: int)
    requires
        0 <= i < s.len(),
        !s[i],
    ensures
        num_true(s.update(i, true)) == num_true(s) + 1,
    decreases s.len(),
{
    let u = s.update(i, true);
    if i == s.len() - 1 {
        assert(u.drop_last() =~= s.drop_last());
    } else {
        assert(u.drop_last() =~= s.drop_last().update(i, true));
        lemma_num_true_set(s.drop_last(), i);
    }
}

proof fn lemma_increasing_unique<T: Revision>(recs: Seq<T>, a: int, b: int)
    requires
        increasing(ids_of(recs)),
        0 <= a < recs.len(),
        0 <= b < recs.len(),
        recs[a].spec_id() == recs[b].spec_id(),
    ensures
        a == b,
{
    let ids = ids_of(recs);
    if a < b {
        assert(ids[a] < ids[b]);
    } else if b < a {
        assert(ids[b] < ids[a]);
    }
}

/// A stuck settlement leaves nothing unsettled when the history has an order.
proof fn lemma_settled_up_to<T: Revision>(recs: Seq<T>, s: Seq<bool>, rank: Seq<nat>, v: nat)
    requires
        s.len() == recs.len(),
        ranked(recs, rank),
        forall|x: int| 0 <= x < recs.len() ==> s[x] || !ready(recs, s, x),
    ensures
        forall|x: int| 0 <= x < recs.len() && rank[x] <= v ==> s[x],
    decreases v,
{
    if v > 0 {
        lemma_settled_up_to(recs, s, rank, (v - 1) as nat);
    }
    assert forall|x: int| 0 <= x < recs.len() && rank[x] <= v implies s[x] by {
        assert forall|k: int| 0 <= k < recs[x].spec_parents().len() implies settled_id(recs, s, #[trigger] recs[x].spec_parents()[k]) by {
            assert(parent_below(recs, rank, x, k));
            let j = choose|j: int| 0 <= j < recs.len() && #[trigger] recs[j].spec_id() == recs[x].spec_parents()[k] && rank[j] < rank[x];
            assert(rank[j] <= v - 1);
            assert(s[j]);
        }
        assert(ready(recs, s, x));
        assert(s[x]);
    }
}

proof fn lemma_stuck_means_incomplete<T: Revision>(recs: Seq<T>, s: Seq<bool>, x: int)
    requires
        s.len() == recs.len(),
        forall|y: int| 0 <= y < recs.len() ==> s[y] || !ready(recs, s, y),
        0 <= x < recs.len(),
        !s[x],
    ensures
        !complete_history(recs),
{
    if complete_history(recs) {
        let rank = choose|rank: Seq<nat>| ranked(recs, rank);
        lemma_settled_up_to(recs, s, rank, rank[x]);
        assert(s[x]);
    }
}

impl<T: Revision> RevisionSnapshot<T> {
    /// The position of the revision with this ID.
    pub fn find(&self, id: u128) -> (r: Option<usize>)
        requires
            self.wf(),
        ensures
            match r {
                Some(j) => j < self.revisions.len() && self.revisions@[j as int].spec_id() == id,
                None => !has_id(self.revisions@, id),
            },
    {
        let ghost ids = ids_of(self.revisions@);
        let mut lo: usize = 0;
        let mut hi: usize = self.revisions.len();
        while lo < hi
            invariant
                ids == ids_of(self.revisions@),
                increasing(ids),
                lo <= hi <= self.revisions.len(),
                forall|k: int| 0 <= k < lo ==> ids[k] < id,
                forall|k: int| hi <= k < self.revisions.len() ==> ids[k] > id,
            decreases hi - lo,
        {
            let mid = lo + (hi - lo) / 2;
            let m = self.revisions[mid].revision_id();
            assert(ids[mid as int] == m);
            if m == id {
                return Some(mid);
            } else if m < id {
                proof {
                    assert forall|k: int| 0 <= k < mid + 1 implies ids[k] < id by {
                        if k < mid {
                            assert(ids[k] < ids[mid as int]);
                        }
                    }
                }
                lo = mid + 1;
            } else {
                proof {
                    assert forall|k: int| mid <= k < self.revisions.len() implies ids[k] > id by {
                        if k > mid {
                            assert(ids[mid as int] < ids[k]);
                        }
                    }
                }
                hi = mid;
            }
        }
        proof {
            assert forall|i: int| 0 <= i < self.revisions.len() implies (#[trigger] self.revisions@[i]).spec_id() != id by {
                assert(ids[i] == self.revisions@[i].spec_id());
            }
        }
        None
    }

    fn parent_positions(&self) -> (t: Vec<Vec<Option<usize>>>)
        requires
            self.wf(),
        ensures
            parent_table(self.revisions@, t@.map_values(|v: Vec<Option<usize>>| v@)),
    {
        let ghost recs = self.revisions@;
        let mut t: Vec<Vec<Option<usize>>> = Vec::new();
        let mut i: usize = 0;
        while i < self.revisions.len()
            invariant
                recs == self.revisions@,
                self.wf(),
                i <= self.revisions.len(),
                t.len() == i,
                forall|a: int| 0 <= a < i ==> (#[trigger] t@[a])@.len() == recs[a].spec_parents().len(),
                forall|a: int, k: int|
                    0 <= a < i && 0 <= k < recs[a].spec_parents().len() ==> match #[trigger] t@[a]@[k] {
                        Some(j) => j < recs.len() && recs[j as int].spec_id() == recs[a].spec_parents()[k],
                        None => !has_id(recs, recs[a].spec_parents()[k]),
                    },
            decreases self.revisions.len() - i,
        {
            let parents = self.revisions[i].parent_ids();
            let mut row: Vec<Option<usize>> = Vec::new();
            let mut k: usize = 0;
            while k < parents.len()
                invariant
                    recs == self.revisions@,
                    self.wf(),
                    i < self.revisions.len(),
                    parents@ == recs[i as int].spec_parents(),
                    k <= parents.len(),
                    row.len() == k,
                    forall|x: int| 0 <= x < k ==> match #[trigger] row@[x] {
                        Some(j) => j < recs.len() && recs[j as int].spec_id() == parents@[x],
                        None => !has_id(recs, parents@[x]),
                    },
                decreases parents.len() - k,
            {
                row.push(self.find(parents[k]));
                k += 1;
            }
            t.push(row);
            proof {
                assert forall|a: int, k: int|
                    0 <= a < i + 1 && 0 <= k < recs[a].spec_parents().len() implies match #[trigger] t@[a]@[k] {
                        Some(j) => j < recs.len() && recs[j as int].spec_id() == recs[a].spec_parents()[k],
                        None => !has_id(recs, recs[a].spec_parents()[k]),
                    } by {
                    if a == i {
                        assert(t@[a]@ == row@);
                        assert(match row@[k] {
                            Some(j) => j < recs.len() && recs[j as int].spec_id() == parents@[k],
                            None => !has_id(recs, parents@[k]),
                        });
                    }
                }
            }
            i += 1;
        }
        let ghost tv = t@.map_values(|v: Vec<Option<usize>>| v@);
        assert forall|a: int| 0 <= a < recs.len() implies (#[trigger] tv[a]).len() == recs[a].spec_parents().len() by {
            assert(tv[a] == t@[a]@);
        }
        assert forall|a: int, k: int|
            0 <= a < recs.len() && 0 <= k < recs[a].spec_parents().len() implies match #[trigger] tv[a][k] {
                Some(j) => j < recs.len() && recs[j as int].spec_id() == recs[a].spec_parents()[k],
                None => !has_id(recs, recs[a].spec_parents()[k]),
            } by {
            assert(tv[a] == t@[a]@);
        }
        t
    }
}

} // verus!

verus! {

pub open spec fn named_by_first<T: Revision>(recs: Seq<T>, a: int, id: u128) -> bool {
    exists|x: int, k: int|
        0 <= x < a && 0 <= k < recs[x].spec_parents().len() && #[trigger] recs[x].spec_parents()[k] == id
}

pub open spec fn table_view(t: Seq<Vec<Option<usize>>>) -> Seq<Seq<Option<usize>>> {
    t.map_values(|v: Vec<Option<usize>>| v@)
}

impl<T: Revision> RevisionSnapshot<T> {
    fn mixed(&self) -> (r: bool)
        ensures
            r == mixed_identity(self.revisions@),
    {
        let n = self.revisions.len();
        if n == 0 {
            return false;
        }
        let first = self.revisions[0].entity_id();
        let mut i: usize = 1;
        while i < n
            invariant
                n == self.revisions.len(),
                n > 0,
                first == self.revisions@[0].spec_entity(),
                1 <= i <= n,
                forall|x: int| 0 <= x < i ==> (#[trigger] self.revisions@[x]).spec_entity() == first,
            decreases n - i,
        {
            if self.revisions[i].entity_id() != first {
                assert(self.revisions@[i as int].spec_entity() != self.revisions@[0].spec_entity());
                return true;
            }
            i += 1;
        }
        false
    }

    fn parent_marks(&self, t: &Vec<Vec<Option<usize>>>) -> (m: Vec<bool>)
        requires
            self.wf(),
            parent_table(self.revisions@, table_view(t@)),
        ensures
            m.len() == self.revisions.len(),
            forall|j: int| 0 <= j < m.len() ==> m@[j] == named_as_parent(self.revisions@, #[trigger] self.revisions@[j].spec_id()),
    {
        let ghost recs = self.revisions@;
        let n = self.revisions.len();
        let mut m: Vec<bool> = Vec::new();
        while m.len() < n
            invariant
                m.len() <= n,
                forall|j: int| 0 <= j < m.len() ==> !m@[j],
            decreases n - m.len(),
        {
            m.push(false);
        }
        let mut a: usize = 0;
        while a < n
            invariant
                recs == self.revisions@,
                n == recs.len(),
                self.wf(),
                parent_table(recs, table_view(t@)),
                m.len() == n,
                a <= n,
                forall|j: int| 0 <= j < n ==> m@[j] == named_by_first(recs, a as int, #[trigger] recs[j].spec_id()),
            decreases n - a,
        {
            let row = &t[a];
            assert(row@ == table_view(t@)[a as int]);
            let mut k: usize = 0;
            while k < row.len()
                invariant
                    recs == self.revisions@,
                    n == recs.len(),
                    self.wf(),
                    parent_table(recs, table_view(t@)),
                    row@ == table_view(t@)[a as int],
                    a < n,
                    m.len() == n,
                    k <= row.len(),
                    row.len() == recs[a as int].spec_parents().len(),
                    forall|j: int| 0 <= j < n ==> m@[j] == (named_by_first(recs, a as int, #[trigger] recs[j].spec_id())
                        || exists|y: int| 0 <= y < k && recs[a as int].spec_parents()[y] == recs[j].spec_id()),
                decreases row.len() - k,
            {
                let ghost before = m@;
                let entry = row[k];
                assert(entry == table_view(t@)[a as int][k as int]);
                match entry {
                    Some(j) => {
                        m.set(j, true);
                    },
                    None => {},
                }
                proof {
                    let p = recs[a as int].spec_parents()[k as int];
                    assert forall|j: int| 0 <= j < n implies m@[j] == (named_by_first(recs, a as int, #[trigger] recs[j].spec_id())
                        || exists|y: int| 0 <= y < k + 1 && recs[a as int].spec_parents()[y] == recs[j].spec_id()) by {
                        let id = recs[j].spec_id();
                        if exists|y: int| 0 <= y < k + 1 && recs[a as int].spec_parents()[y] == id {
                            let y = choose|y: int| 0 <= y < k + 1 && recs[a as int].spec_parents()[y] == id;
                            if y == k {
                                match entry {
                                    Some(j2) => {
                                        lemma_increasing_unique(recs, j, j2 as int);
                                    },
                                    None => {
                                        assert(recs[j].spec_id() == p);
                                    },
                                }
                            }
                        }
                        match entry {
                            Some(j2) => {
                                if j == j2 {
                                    assert(recs[a as int].spec_parents()[k as int] == id);
                                }
                            },
                            None => {},
                        }
                    }
                }
                k += 1;
            }
            proof {
                assert forall|j: int| 0 <= j < n implies m@[j] == named_by_first(recs, a + 1, #[trigger] recs[j].spec_id()) by {
                    let id = recs[j].spec_id();
                    if named_by_first(recs, a + 1, id) {
                        let (x, y) = choose|x: int, y: int|
                            0 <= x < a + 1 && 0 <= y < recs[x].spec_parents().len() && #[trigger] recs[x].spec_parents()[y] == id;
                        if x < a {
                            assert(named_by_first(recs, a as int, id));
                        }
                    }
                    if exists|y: int| 0 <= y < k && recs[a as int].spec_parents()[y] == id {
                        let y = choose|y: int| 0 <= y < k && recs[a as int].spec_parents()[y] == id;
                        assert(recs[a as int].spec_parents()[y] == id);
                    }
                    if named_by_first(recs, a as int, id) {
                        let (x, y) = choose|x: int, y: int|
                            0 <= x < a && 0 <= y < recs[x].spec_parents().len() && #[trigger] recs[x].spec_parents()[y] == id;
                        assert(recs[x].spec_parents()[y] == id);
                    }
                }
            }
            a += 1;
        }
        proof {
            assert forall|j: int| 0 <= j < m.len() implies m@[j] == named_as_parent(recs, #[trigger] recs[j].spec_id()) by {
                let id = recs[j].spec_id();
                if named_as_parent(recs, id) {
                    let (x, y) = choose|x: int, y: int|
                        0 <= x < recs.len() && 0 <= y < recs[x].spec_parents().len() && #[trigger] recs[x].spec_parents()[y] == id;
                    assert(named_by_first(recs, n as int, id));
                }
                if named_by_first(recs, n as int, id) {
                    let (x, y) = choose|x: int, y: int|
                        0 <= x < n && 0 <= y < recs[x].spec_parents().len() && #[trigger] recs[x].spec_parents()[y] == id;
                    assert(named_as_parent(recs, id));
                }
            }
        }
        m
    }

    fn head_list(&self, marks: &Vec<bool>) -> (h: Vec<u128>)
        requires
            marks.len() == self.revisions.len(),
            forall|j: int| 0 <= j < marks.len() ==> marks@[j] == named_as_parent(self.revisions@, #[trigger] self.revisions@[j].spec_id()),
        ensures
            h@ == head_ids(self.revisions@),
    {
        let ghost recs = self.revisions@;
        let ghost ids = ids_of(recs);
        let ghost pred = |id: u128| !named_as_parent(recs, id);
        let mut h: Vec<u128> = Vec::new();
        let mut j: usize = 0;
        while j < self.revisions.len()
            invariant
                recs == self.revisions@,
                ids == ids_of(recs),
                pred == (|id: u128| !named_as_parent(recs, id)),
                marks.len() == recs.len(),
                forall|x: int| 0 <= x < marks.len() ==> marks@[x] == named_as_parent(recs, #[trigger] recs[x].spec_id()),
                j <= recs.len(),
                h@ == ids.subrange(0, j as int).filter(pred),
            decreases recs.len() - j,
        {
            proof {
                ids.subrange(0, j as int).lemma_filter_push(ids[j as int], pred);
                assert(ids.subrange(0, j as int).push(ids[j as int]) =~= ids.subrange(0, j + 1));
                assert(ids[j as int] == recs[j as int].spec_id());
            }
            if !marks[j] {
                h.push(self.revisions[j].revision_id());
            }
            j += 1;
        }
        assert(ids.subrange(0, recs.len() as int) =~= ids);
        h
    }

    fn missing_list(&self, t: &Vec<Vec<Option<usize>>>) -> (r: Vec<u128>)
        requires
            parent_table(self.revisions@, table_view(t@)),
        ensures
            r@ == missing_parents(self.revisions@, self.revisions@),
    {
        let ghost recs = self.revisions@;
        let n = self.revisions.len();
        let mut out: Vec<u128> = Vec::new();
        let mut a: usize = 0;
        while a < n
            invariant
                recs == self.revisions@,
                n == recs.len(),
                parent_table(recs, table_view(t@)),
                a <= n,
                out@ == missing_parents(recs.subrange(0, a as int), recs),
            decreases n - a,
        {
            let parents = self.revisions[a].parent_ids();
            let row = &t[a];
            assert(row@ == table_view(t@)[a as int]);
            let ghost pred = |p: u128| !has_id(recs, p);
            let ghost base = out@;
            let mut k: usize = 0;
            while k < parents.len()
                invariant
                    recs == self.revisions@,
                    n == recs.len(),
                    a < n,
                    parent_table(recs, table_view(t@)),
                    row@ == table_view(t@)[a as int],
                    parents@ == recs[a as int].spec_parents(),
                    row.len() == parents.len(),
                    k <= parents.len(),
                    pred == (|p: u128| !has_id(recs, p)),
                    out@ == base + parents@.subrange(0, k as int).filter(pred),
                decreases parents.len() - k,
            {
                proof {
                    parents@.subrange(0, k as int).lemma_filter_push(parents@[k as int], pred);
                    assert(parents@.subrange(0, k as int).push(parents@[k as int]) =~= parents@.subrange(0, k + 1));
                }
                let entry = row[k];
                assert(entry == table_view(t@)[a as int][k as int]);
                if entry.is_none() {
                    out.push(parents[k]);
                    assert(out@ =~= base + parents@.subrange(0, k + 1).filter(pred));
                } else {
                    let j = entry.unwrap();
                    assert(recs[j as int].spec_id() == parents@[k as int]);
                    assert(!pred(parents@[k as int]));
                }
                k += 1;
            }
            proof {
                let s = recs.subrange(0, a + 1);
                assert(s.drop_last() =~= recs.subrange(0, a as int));
                assert(s.last() == recs[a as int]);
                assert(parents@.subrange(0, parents@.len() as int) =~= parents@);
            }
            a += 1;
        }
        assert(recs.subrange(0, n as int) =~= recs);
        out
    }
}

} // verus!

verus! {

/// Parent `k` of revision `i` is settled and ranked lower than `i`.
pub open spec fn settled_below<T: Revision>(recs: Seq<T>, s: Seq<bool>, rank: Seq<nat>, i: int, k: int) -> bool {
    exists|j: int|
        0 <= j < recs.len() && s[j] && #[trigger] recs[j].spec_id() == recs[i].spec_parents()[k] && rank[j] < rank[i]
}

/// Every settled revision has its parents settled, each ranked lower.
pub open spec fn settled_ranked<T: Revision>(recs: Seq<T>, s: Seq<bool>, rank: Seq<nat>) -> bool {
    forall|i: int, k: int|
        0 <= i < recs.len() && s[i] && 0 <= k < recs[i].spec_parents().len() ==> #[trigger] settled_below(recs, s, rank, i, k)
}

impl<T: Revision> RevisionSnapshot<T> {
    fn row_ready(&self, t: &Vec<Vec<Option<usize>>>, s: &Vec<bool>, i: usize) -> (r: bool)
        requires
            self.wf(),
            parent_table(self.revisions@, table_view(t@)),
            s.len() == self.revisions.len(),
            i < self.revisions.len(),
        ensures
            r == ready(self.revisions@, s@, i as int),
    {
        let ghost recs = self.revisions@;
        let row = &t[i];
        assert(row@ == table_view(t@)[i as int]);
        let mut k: usize = 0;
        while k < row.len()
            invariant
                recs == self.revisions@,
                self.wf(),
                parent_table(recs, table_view(t@)),
                row@ == table_view(t@)[i as int],
                i < recs.len(),
                s.len() == recs.len(),
                row.len() == recs[i as int].spec_parents().len(),
                k <= row.len(),
                forall|y: int| 0 <= y < k ==> settled_id(recs, s@, #[trigger] recs[i as int].spec_parents()[y]),
            decreases row.len() - k,
        {
            let entry = row[k];
            assert(entry == table_view(t@)[i as int][k as int]);
            let ghost p = recs[i as int].spec_parents()[k as int];
            match entry {
                Some(j) => {
                    if !s[j] {
                        proof {
                            if settled_id(recs, s@, p) {
                                let j2 = choose|j2: int| 0 <= j2 < recs.len() && #[trigger] recs[j2].spec_id() == p && s@[j2];
                                lemma_increasing_unique(recs, j as int, j2);
                            }
                        }
                        return false;
                    }
                    assert(recs[j as int].spec_id() == p);
                },
                None => {
                    proof {
                        if settled_id(recs, s@, p) {
                            let j2 = choose|j2: int| 0 <= j2 < recs.len() && #[trigger] recs[j2].spec_id() == p && s@[j2];
                            assert(recs[j2].spec_id() == p);
                        }
                    }
                    return false;
                },
            }
            k += 1;
        }
        true
    }

    /// Whether every parent is present and no revision descends from itself: revisions
    /// are settled once all their parents are, until nothing changes.
    fn settles(&self, t: &Vec<Vec<Option<usize>>>) -> (r: bool)
        requires
            self.wf(),
            parent_table(self.revisions@, table_view(t@)),
        ensures
            r == complete_history(self.revisions@),
    {
        let ghost recs = self.revisions@;
        let n = self.revisions.len();
        let mut s: Vec<bool> = Vec::new();
        while s.len() < n
            invariant
                s.len() <= n,
                forall|j: int| 0 <= j < s.len() ==> !s@[j],
            decreases n - s.len(),
        {
            s.push(false);
        }
        let ghost mut rank: Seq<nat> = Seq::new(n as nat, |x: int| 0nat);
        let ghost mut c: nat = 0;
        proof {
            lemma_num_true_bound(s@);
        }
        let mut changed = true;
        while changed
            invariant
                recs == self.revisions@,
                n == recs.len(),
                self.wf(),
                parent_table(recs, table_view(t@)),
                s.len() == n,
                rank.len() == n,
                settled_ranked(recs, s@, rank),
                forall|y: int| 0 <= y < n && s@[y] ==> rank[y] < c,
                num_true(s@) <= n,
                !changed ==> forall|x: int| 0 <= x < n ==> s@[x] || !ready(recs, s@, x),
            decreases 2 * (n - num_true(s@)) + if changed { 1int } else { 0int },
        {
            let ghost start = s@;
            let mut progress = false;
            let mut i: usize = 0;
            while i < n
                invariant
                    recs == self.revisions@,
                    n == recs.len(),
                    self.wf(),
                    parent_table(recs, table_view(t@)),
                    s.len() == n,
                    rank.len() == n,
                    settled_ranked(recs, s@, rank),
                    forall|y: int| 0 <= y < n && s@[y] ==> rank[y] < c,
                    i <= n,
                    num_true(s@) <= n,
                    num_true(s@) >= num_true(start),
                    progress ==> num_true(s@) > num_true(start),
                    !progress ==> s@ == start,
                    !progress ==> forall|x: int| 0 <= x < i ==> s@[x] || !ready(recs, s@, x),
                decreases n - i,
            {
                if !s[i] && self.row_ready(t, &s, i) {
                    let ghost before = s@;
                    proof {
                        lemma_num_true_set(before, i as int);
                    }
                    s.set(i, true);
                    proof {
                        let old_rank = rank;
                        rank = rank.update(i as int, c);
                        c = c + 1;
                        lemma_num_true_bound(s@);
                        assert forall|a: int, k: int|
                            0 <= a < recs.len() && s@[a] && 0 <= k < recs[a].spec_parents().len() implies #[trigger] settled_below(
                                recs,
                                s@,
                                rank,
                                a,
                                k,
                            ) by {
                            if a == i {
                                assert(settled_id(recs, before, recs[a].spec_parents()[k]));
                                let j = choose|j: int| 0 <= j < recs.len() && #[trigger] recs[j].spec_id() == recs[a].spec_parents()[k] && before[j];
                                assert(j != i);
                                assert(s@[j]);
                                assert(rank[j] == old_rank[j]);
                                assert(rank[j] < rank[a]);
                                assert(recs[j].spec_id() == recs[a].spec_parents()[k]);
                            } else {
                                assert(before[a]);
                                assert(settled_below(recs, before, old_rank, a, k));
                                let j = choose|j: int|
                                    0 <= j < recs.len() && before[j] && #[trigger] recs[j].spec_id() == recs[a].spec_parents()[k]
                                        && old_rank[j] < old_rank[a];
                                assert(j != i);
                                assert(s@[j] && rank[j] == old_rank[j] && rank[a] == old_rank[a]);
                                assert(recs[j].spec_id() == recs[a].spec_parents()[k]);
                            }
                        }
                    }
                    progress = true;
                }
                i += 1;
            }
            changed = progress;
        }
        let mut x: usize = 0;
        while x < n
            invariant
                recs == self.revisions@,
                n == recs.len(),
                s.len() == n,
                rank.len() == n,
                settled_ranked(recs, s@, rank),
                x <= n,
                forall|y: int| 0 <= y < x ==> s@[y],
                forall|y: int| 0 <= y < n ==> s@[y] || !ready(recs, s@, y),
            decreases n - x,
        {
            if !s[x] {
                proof {
                    lemma_stuck_means_incomplete(recs, s@, x as int);
                }
                return false;
            }
            x += 1;
        }
        proof {
            assert forall|i: int, k: int| 0 <= i < recs.len() && 0 <= k < recs[i].spec_parents().len() implies #[trigger] parent_below(
                recs,
                rank,
                i,
                k,
            ) by {
                assert(s@[i]);
                assert(settled_below(recs, s@, rank, i, k));
                let j = choose|j: int|
                    0 <= j < recs.len() && s@[j] && #[trigger] recs[j].spec_id() == recs[i].spec_parents()[k] && rank[j] < rank[i];
                assert(recs[j].spec_id() == recs[i].spec_parents()[k]);
            }
            assert(ranked(recs, rank));
        }
        true
    }
}

} // verus!

verus! {

/// Why a history does not accept an edit based on the heads a user reviewed.
#[derive(Debug, Clone, Copy, PartialEq, Eq, Structural)]
pub enum HistoryError {
    /// Files need attention before anything is written; the snapshot's issues say which.
    NeedsAttention,
    /// The record changed or has a conflict: the heads are not the reviewed ones.
    Changed,
}

/// The reviewed heads are exactly the current heads, and there is at least one.
pub open spec fn heads_match(heads: Seq<u128>, expected: Seq<u128>) -> bool {
    &&& expected.len() > 0
    &&& heads.to_set() == expected.to_set()
}

/// A resolution acknowledges a real conflict and keeps one of its heads.
pub open spec fn valid_choice(expected: Seq<u128>, chosen: u128) -> bool {
    expected.to_set().len() > 1 && expected.contains(chosen)
}

/// Whether `id` occurs in `v`.
pub fn holds_id(v: &Vec<u128>, id: u128) -> (r: bool)
    ensures
        r == v@.contains(id),
{
    let mut i: usize = 0;
    while i < v.len()
        invariant
            i <= v.len(),
            forall|k: int| 0 <= k < i ==> v@[k] != id,
        decreases v.len() - i,
    {
        if v[i] == id {
            assert(v@[i as int] == id);
            return true;
        }
        i += 1;
    }
    false
}

/// Whether every ID of `a` occurs in `b`.
fn all_held(a: &Vec<u128>, b: &Vec<u128>) -> (r: bool)
    ensures
        r == a@.to_set().subset_of(b@.to_set()),
{
    let mut i: usize = 0;
    while i < a.len()
        invariant
            i <= a.len(),
            forall|k: int| 0 <= k < i ==> b@.contains(#[trigger] a@[k]),
        decreases a.len() - i,
    {
        if !holds_id(b, a[i]) {
            assert(a@.to_set().contains(a@[i as int]));
            return false;
        }
        i += 1;
    }
    assert forall|x: u128| a@.to_set().contains(x) implies b@.to_set().contains(x) by {
        let k = choose|k: int| 0 <= k < a.len() && a@[k] == x;
        assert(b@.contains(a@[k]));
    }
    true
}

/// Whether `expected` holds more than one distinct ID and `chosen` among them: the
/// choice a resolution of a conflict needs.
pub fn is_valid_choice(expected: &Vec<u128>, chosen: u128) -> (r: bool)
    ensures
        r == valid_choice(expected@, chosen),
{
    if !holds_id(expected, chosen) {
        return false;
    }
    let mut i: usize = 0;
    while i < expected.len()
        invariant
            i <= expected.len(),
            expected@.contains(chosen),
            forall|k: int| 0 <= k < i ==> expected@[k] == chosen,
        decreases expected.len() - i,
    {
        if expected[i] != chosen {
            proof {
                let s = expected@.to_set();
                assert(s.contains(chosen));
                assert(s.contains(expected@[i as int]));
                let two = set![chosen, expected@[i as int]];
                assert(two.subset_of(s));
                vstd::set_lib::lemma_len_subset(two, s);
                assert(two.len() == 2) by {
                    assert(set![chosen].len() == 1);
                    assert(two == set![chosen].insert(expected@[i as int]));
                }
            }
            return true;
        }
        i += 1;
    }
    proof {
        let s = expected@.to_set();
        assert(s =~= set![chosen]) by {
            assert forall|x: u128| s.contains(x) implies x == chosen by {
                let k = choose|k: int| 0 <= k < expected.len() && expected@[k] == x;
            }
        }
    }
    false
}

impl<T: Revision> RevisionSnapshot<T> {
    /// Completes a scan: computes the heads and reports mixed identities, missing
    /// parents, and an incomplete or cyclic history.
    pub fn finish(&mut self)
        requires
            old(self).wf(),
        ensures
            final(self).wf(),
            final(self).revisions@ == old(self).revisions@,
            final(self).heads@ == head_ids(old(self).revisions@),
            final(self).issues@ == old(self).issues@ + history_issues(old(self).revisions@),
    {
        let ghost recs = self.revisions@;
        let ghost start = self.issues@;
        let mixed = self.mixed();
        if mixed {
            self.issues.push(RevisionIssue::MixedIdentity);
        }
        let ghost first = if mixed {
            seq![RevisionIssue::MixedIdentity]
        } else {
            Seq::<RevisionIssue>::empty()
        };
        assert(self.issues@ == start + first);
        let t = self.parent_positions();
        let marks = self.parent_marks(&t);
        self.heads = self.head_list(&marks);
        let missing = self.missing_list(&t);
        let ghost mp = missing@.map_values(|p: u128| RevisionIssue::MissingParent(p));
        let mut k: usize = 0;
        while k < missing.len()
            invariant
                recs == self.revisions@,
                self.heads@ == head_ids(recs),
                k <= missing.len(),
                mp == missing@.map_values(|p: u128| RevisionIssue::MissingParent(p)),
                self.issues@ == start + first + mp.subrange(0, k as int),
            decreases missing.len() - k,
        {
            self.issues.push(RevisionIssue::MissingParent(missing[k]));
            assert(mp.subrange(0, k + 1) =~= mp.subrange(0, k as int).push(RevisionIssue::MissingParent(missing@[k as int])));
            k += 1;
        }
        assert(mp.subrange(0, missing.len() as int) =~= mp);
        let complete = self.settles(&t);
        if !complete {
            self.issues.push(RevisionIssue::IncompleteOrCycle);
        }
        assert(self.issues@ =~= start + history_issues(recs));
    }

    /// The single current revision: present only when nothing needs attention and the
    /// history has exactly one head.
    pub fn current(&self) -> (r: Option<&T>)
        requires
            self.wf(),
        ensures
            match r {
                Some(x) => {
                    &&& self.issues@.len() == 0
                    &&& self.heads@.len() == 1
                    &&& x.spec_id() == self.heads@[0]
                    &&& self.revisions@.contains(*x)
                },
                None => !(self.issues@.len() == 0 && self.heads@.len() == 1 && has_id(self.revisions@, self.heads@[0])),
            },
    {
        if self.issues.len() != 0 || self.heads.len() != 1 {
            return None;
        }
        match self.find(self.heads[0]) {
            Some(j) => {
                assert(self.revisions@.contains(self.revisions@[j as int]));
                Some(&self.revisions[j])
            },
            None => None,
        }
    }

    /// More than one head: concurrent edits wait for a resolution.
    pub fn has_conflict(&self) -> (r: bool)
        ensures
            r == (self.heads@.len() > 1),
    {
        self.heads.len() > 1
    }

    /// Accepts an edit based on the `expected` heads only when no file needs attention
    /// and the heads are exactly those.
    pub fn check_heads(&self, expected: &Vec<u128>) -> (r: Result<(), HistoryError>)
        ensures
            self.issues@.len() > 0 ==> r == Err::<(), HistoryError>(HistoryError::NeedsAttention),
            self.issues@.len() == 0 && !heads_match(self.heads@, expected@) ==> r == Err::<(), HistoryError>(HistoryError::Changed),
            self.issues@.len() == 0 && heads_match(self.heads@, expected@) ==> r is Ok,
    {
        if self.issues.len() > 0 {
            return Err(HistoryError::NeedsAttention);
        }
        if expected.len() == 0 {
            return Err(HistoryError::Changed);
        }
        if all_held(expected, &self.heads) && all_held(&self.heads, expected) {
            assert(self.heads@.to_set() =~= expected@.to_set());
            Ok(())
        } else {
            Err(HistoryError::Changed)
        }
    }
}

} // verus!

verus! {

proof fn lemma_filter_none(s: Seq<u128>, pred: spec_fn(u128) -> bool)
    requires
        forall|i: int| 0 <= i < s.len() ==> !pred(#[trigger] s[i]),
    ensures
        s.filter(pred).len() == 0,
    decreases s.len(),
{
    reveal(Seq::filter);
    if s.len() > 0 {
        lemma_filter_none(s.drop_last(), pred);
        assert(!pred(s[s.len() - 1]));
    }
}

proof fn lemma_filter_only(s: Seq<u128>, pred: spec_fn(u128) -> bool, q: int)
    requires
        0 <= q < s.len(),
        pred(s[q]),
        forall|i: int| 0 <= i < s.len() && i != q ==> !pred(#[trigger] s[i]),
    ensures
        s.filter(pred) == seq![s[q]],
    decreases s.len(),
{
    reveal(Seq::filter);
    let d = s.drop_last();
    if q == s.len() - 1 {
        assert forall|i: int| 0 <= i < d.len() implies !pred(#[trigger] d[i]) by {
            assert(d[i] == s[i]);
        }
        lemma_filter_none(d, pred);
        assert(d.filter(pred) =~= Seq::<u128>::empty());
        assert(s.filter(pred) =~= seq![s[q]]);
    } else {
        assert forall|i: int| 0 <= i < d.len() && i != q implies !pred(#[trigger] d[i]) by {
            assert(d[i] == s[i]);
        }
        lemma_filter_only(d, pred, q);
        assert(!pred(s[s.len() - 1]));
    }
}

proof fn lemma_missing_named<T: Revision>(recs: Seq<T>, all: Seq<T>)
    requires
        missing_parents(recs, all).len() > 0,
    ensures
        exists|i: int, k: int|
            0 <= i < recs.len() && 0 <= k < recs[i].spec_parents().len() && !has_id(all, #[trigger] recs[i].spec_parents()[k]),
    decreases recs.len(),
{
    let d = recs.drop_last();
    let ps = recs.last().spec_parents();
    let pred = |p: u128| !has_id(all, p);
    if missing_parents(d, all).len() > 0 {
        lemma_missing_named(d, all);
        let (i, k) = choose|i: int, k: int|
            0 <= i < d.len() && 0 <= k < d[i].spec_parents().len() && !has_id(all, #[trigger] d[i].spec_parents()[k]);
        assert(d[i] == recs[i]);
        assert(!has_id(all, recs[i].spec_parents()[k]));
    } else {
        assert(ps.filter(pred).len() > 0);
        if forall|k: int| 0 <= k < ps.len() ==> !pred(#[trigger] ps[k]) {
            lemma_filter_none(ps, pred);
        }
        let k = choose|k: int| 0 <= k < ps.len() && pred(#[trigger] ps[k]);
        assert(!has_id(all, recs[recs.len() - 1].spec_parents()[k]));
    }
}

/// A revision whose parent no file holds leaves the history incomplete: a missing
/// parent is always reported together with the incomplete-history issue.
pub proof fn law_missing_parent_blocks_completion<T: Revision>(recs: Seq<T>)
    requires
        missing_parents(recs, recs).len() > 0,
    ensures
        !complete_history(recs),
        history_issues(recs).contains(RevisionIssue::IncompleteOrCycle),
{
    lemma_missing_named(recs, recs);
    let (i, k) = choose|i: int, k: int|
        0 <= i < recs.len() && 0 <= k < recs[i].spec_parents().len() && !has_id(recs, #[trigger] recs[i].spec_parents()[k]);
    if complete_history(recs) {
        let rank = choose|rank: Seq<nat>| ranked(recs, rank);
        assert(parent_below(recs, rank, i, k));
        let j = choose|j: int| 0 <= j < recs.len() && #[trigger] recs[j].spec_id() == recs[i].spec_parents()[k] && rank[j] < rank[i];
        assert(has_id(recs, recs[i].spec_parents()[k]));
    }
    let h = history_issues(recs);
    assert(h[h.len() - 1] == RevisionIssue::IncompleteOrCycle);
}

proof fn lemma_max_rank(rank: Seq<nat>, n: int) -> (m: int)
    requires
        0 < n <= rank.len(),
    ensures
        0 <= m < n,
        forall|i: int| 0 <= i < n ==> rank[i] <= rank[m],
    decreases n,
{
    if n == 1 {
        0
    } else {
        let m = lemma_max_rank(rank, n - 1);
        if rank[n - 1] >= rank[m] {
            n - 1
        } else {
            m
        }
    }
}

/// A nonempty complete history always has a head: the newest revision is nobody's parent.
pub proof fn law_complete_history_has_head<T: Revision>(recs: Seq<T>)
    requires
        increasing(ids_of(recs)),
        recs.len() > 0,
        complete_history(recs),
    ensures
        head_ids(recs).len() > 0,
{
    let rank = choose|rank: Seq<nat>| ranked(recs, rank);
    let m = lemma_max_rank(rank, recs.len() as int);
    let id = recs[m].spec_id();
    if named_as_parent(recs, id) {
        let (x, k) = choose|x: int, k: int|
            0 <= x < recs.len() && 0 <= k < recs[x].spec_parents().len() && #[trigger] recs[x].spec_parents()[k] == id;
        assert(parent_below(recs, rank, x, k));
        let j = choose|j: int| 0 <= j < recs.len() && #[trigger] recs[j].spec_id() == recs[x].spec_parents()[k] && rank[j] < rank[x];
        lemma_increasing_unique(recs, j, m);
        assert(rank[x] <= rank[m]);
    }
    let ids = ids_of(recs);
    let pred = |i: u128| !named_as_parent(recs, i);
    assert(ids[m] == id);
    ids.lemma_filter_contains(pred, m);
}

proof fn lemma_heads_present<T: Revision>(recs: Seq<T>, c: u128)
    requires
        head_ids(recs).to_set().contains(c),
    ensures
        has_id(recs, c),
        !named_as_parent(recs, c),
{
    let ids = ids_of(recs);
    let pred = |i: u128| !named_as_parent(recs, i);
    let q = choose|q: int| 0 <= q < head_ids(recs).len() && head_ids(recs)[q] == c;
    lemma_filter_member(ids, pred, q);
    ids.lemma_filter_pred(pred, q);
    let x = choose|x: int| 0 <= x < ids.len() && ids[x] == c;
    assert(recs[x].spec_id() == c);
}

proof fn lemma_unheaded_is_named<T: Revision>(recs: Seq<T>, i: int)
    requires
        0 <= i < recs.len(),
        !head_ids(recs).to_set().contains(recs[i].spec_id()),
    ensures
        named_as_parent(recs, recs[i].spec_id()),
{
    let ids = ids_of(recs);
    let pred = |x: u128| !named_as_parent(recs, x);
    assert(ids[i] == recs[i].spec_id());
    if !named_as_parent(recs, recs[i].spec_id()) {
        ids.lemma_filter_contains(pred, i);
        assert(head_ids(recs).contains(recs[i].spec_id()));
    }
}

proof fn lemma_child_unnamed<T: Revision>(recs: Seq<T>, child: T, p: int)
    requires
        complete_history(recs),
        !has_id(recs, child.spec_id()),
        forall|k: int| 0 <= k < child.spec_parents().len() ==> has_id(recs, #[trigger] child.spec_parents()[k]),
        0 <= p <= recs.len(),
    ensures
        !named_as_parent(recs.insert(p, child), child.spec_id()),
{
    let all = recs.insert(p, child);
    let rank = choose|rank: Seq<nat>| ranked(recs, rank);
    if named_as_parent(all, child.spec_id()) {
        let (x, k) = choose|x: int, k: int|
            0 <= x < all.len() && 0 <= k < all[x].spec_parents().len() && #[trigger] all[x].spec_parents()[k] == child.spec_id();
        if x == p {
            assert(all[x] == child);
            assert(has_id(recs, child.spec_parents()[k]));
        } else {
            let i = if x < p { x } else { x - 1 };
            assert(all[x] == recs[i]);
            assert(parent_below(recs, rank, i, k));
            let j = choose|j: int| 0 <= j < recs.len() && #[trigger] recs[j].spec_id() == recs[i].spec_parents()[k] && rank[j] < rank[i];
            assert(has_id(recs, child.spec_id()));
        }
    }
}

proof fn lemma_old_named<T: Revision>(recs: Seq<T>, child: T, p: int, i: int)
    requires
        child.spec_parents().to_set() == head_ids(recs).to_set(),
        0 <= p <= recs.len(),
        0 <= i < recs.len(),
    ensures
        named_as_parent(recs.insert(p, child), recs[i].spec_id()),
{
    let all = recs.insert(p, child);
    let id = recs[i].spec_id();
    if head_ids(recs).to_set().contains(id) {
        assert(child.spec_parents().to_set().contains(id));
        let k = choose|k: int| 0 <= k < child.spec_parents().len() && child.spec_parents()[k] == id;
        assert(all[p] == child);
        assert(all[p].spec_parents()[k] == id);
    } else {
        lemma_unheaded_is_named(recs, i);
        let (x, k) = choose|x: int, k: int|
            0 <= x < recs.len() && 0 <= k < recs[x].spec_parents().len() && #[trigger] recs[x].spec_parents()[k] == id;
        let y = if x < p { x } else { x + 1 };
        assert(all[y] == recs[x]);
        assert(all[y].spec_parents()[k] == id);
    }
}

proof fn lemma_child_ranked<T: Revision>(recs: Seq<T>, child: T, p: int)
    requires
        complete_history(recs),
        forall|k: int| 0 <= k < child.spec_parents().len() ==> has_id(recs, #[trigger] child.spec_parents()[k]),
        0 <= p <= recs.len(),
    ensures
        complete_history(recs.insert(p, child)),
{
    let all = recs.insert(p, child);
    let rank = choose|rank: Seq<nat>| ranked(recs, rank);
    let mut top: nat = 0;
    if recs.len() > 0 {
        let m = lemma_max_rank(rank, recs.len() as int);
        top = rank[m] + 1;
    }
    assert(forall|i: int| 0 <= i < recs.len() ==> rank[i] < top);
    let new_rank = rank.insert(p, top);
    assert forall|x: int, k: int| 0 <= x < all.len() && 0 <= k < all[x].spec_parents().len() implies #[trigger] parent_below(
        all,
        new_rank,
        x,
        k,
    ) by {
        if x == p {
            let c = child.spec_parents()[k];
            assert(has_id(recs, c));
            let j = choose|j: int| 0 <= j < recs.len() && (#[trigger] recs[j]).spec_id() == c;
            let y = if j < p { j } else { j + 1 };
            assert(all[y] == recs[j]);
            assert(new_rank[y] == rank[j]);
            assert(rank[j] < top);
            assert(all[y].spec_id() == all[x].spec_parents()[k]);
        } else {
            let i = if x < p { x } else { x - 1 };
            assert(all[x] == recs[i]);
            assert(new_rank[x] == rank[i]);
            assert(parent_below(recs, rank, i, k));
            let j = choose|j: int| 0 <= j < recs.len() && #[trigger] recs[j].spec_id() == recs[i].spec_parents()[k] && rank[j] < rank[i];
            let y = if j < p { j } else { j + 1 };
            assert(all[y] == recs[j]);
            assert(new_rank[y] == rank[j]);
            assert(all[y].spec_id() == all[x].spec_parents()[k]);
        }
    }
    assert(ranked(all, new_rank));
}

/// A revision whose parents are exactly the heads of a complete history becomes its only
/// head, and the history stays complete: publishing a child of every head merges the
/// branches.
pub proof fn law_child_of_all_heads_is_sole_head<T: Revision>(recs: Seq<T>, child: T, p: int)
    requires
        complete_history(recs),
        !has_id(recs, child.spec_id()),
        child.spec_parents().to_set() == head_ids(recs).to_set(),
        0 <= p <= recs.len(),
    ensures
        head_ids(recs.insert(p, child)) == seq![child.spec_id()],
        complete_history(recs.insert(p, child)),
{
    let all = recs.insert(p, child);
    assert forall|k: int| 0 <= k < child.spec_parents().len() implies has_id(recs, #[trigger] child.spec_parents()[k]) by {
        assert(child.spec_parents().to_set().contains(child.spec_parents()[k]));
        lemma_heads_present(recs, child.spec_parents()[k]);
    }
    lemma_child_unnamed(recs, child, p);
    let all_ids = ids_of(all);
    let all_pred = |i: u128| !named_as_parent(all, i);
    assert forall|i: int| 0 <= i < all_ids.len() && i != p implies !all_pred(#[trigger] all_ids[i]) by {
        let j = if i < p { i } else { i - 1 };
        assert(all[i] == recs[j]);
        lemma_old_named(recs, child, p, j);
    }
    assert(all_ids[p] == child.spec_id());
    lemma_filter_only(all_ids, all_pred, p);
    lemma_child_ranked(recs, child, p);
}

proof fn lemma_filter_member(s: Seq<u128>, pred: spec_fn(u128) -> bool, q: int)
    requires
        0 <= q < s.filter(pred).len(),
    ensures
        s.contains(s.filter(pred)[q]),
    decreases s.len(),
{
    reveal(Seq::filter);
    if s.len() > 0 {
        let d = s.drop_last();
        if q < d.filter(pred).len() {
            lemma_filter_member(d, pred, q);
            let x = choose|x: int| 0 <= x < d.len() && d[x] == d.filter(pred)[q];
            assert(s[x] == d[x]);
        } else {
            assert(s.filter(pred)[q] == s[s.len() - 1]);
        }
    }
}

} // verus!

verus! {

/// The sentence shown for a problem of a history.
pub open spec fn issue_text(i: RevisionIssue) -> Seq<char> {
    match i {
        RevisionIssue::File(t) => t@,
        RevisionIssue::Misplaced(f) => f@ + ": Record identity does not match its file location"@,
        RevisionIssue::DifferentContent(f) => "Revision ID has different content: "@ + f@,
        RevisionIssue::MixedIdentity => "Files belong to different libraries or games"@,
        RevisionIssue::MissingParent(p) => "Missing revision parent "@ + crate::reader::uuid_text(p),
        RevisionIssue::IncompleteOrCycle => "Revision history is incomplete or contains a cycle"@,
        RevisionIssue::NoRevisions => "No valid library revisions are available"@,
    }
}

impl RevisionIssue {
    pub fn message(&self) -> (r: String)
        ensures
            r@ == issue_text(*self),
    {
        match self {
            RevisionIssue::File(t) => t.clone(),
            RevisionIssue::Misplaced(f) => {
                let mut s = f.clone();
                s.append(": Record identity does not match its file location");
                s
            },
            RevisionIssue::DifferentContent(f) => {
                let mut s = String::from_str("Revision ID has different content: ");
                s.append(f.as_str());
                s
            },
            RevisionIssue::MixedIdentity => String::from_str("Files belong to different libraries or games"),
            RevisionIssue::MissingParent(p) => {
                let mut s = String::from_str("Missing revision parent ");
                let t = crate::reader::uuid_string(*p);
                s.append(t.as_str());
                s
            },
            RevisionIssue::IncompleteOrCycle => String::from_str("Revision history is incomplete or contains a cycle"),
            RevisionIssue::NoRevisions => String::from_str("No valid library revisions are available"),
        }
    }
}

} // verus!
