//! The decisions of the inspector's personal-data form. A draft is saved only over the
//! revision it was edited from; a provider refresh that leaves personal data alone moves
//! the draft along, anything else keeps it and blocks saving.
use vstd::prelude::*;
use vstd::string::*;

use crate::records::{personal_eq, personal_same, revision_same, strs, GameRevision, PersonalData};
use crate::text::{lines, text_lines};

verus! {

/// The revision a draft edits, the revision it replaced with its last save (until the
/// library shows the result), and whether the last save failed.
#[derive(Debug)]
pub struct Draft {
    pub base: GameRevision,
    pub published_from: Option<u128>,
    pub failed: bool,
}

/// The draft moves to `latest`: it is a newer revision that this draft did not publish,
/// and its personal data is what the draft started from.
pub open spec fn rebases(d: Draft, latest: GameRevision) -> bool {
    &&& latest.revision_id != d.base.revision_id
    &&& d.published_from != Some(latest.revision_id)
    &&& personal_same(latest.game.personal, d.base.game.personal)
}

/// Why saving is blocked, if it is.
pub open spec fn block_reason(d: Draft, write_issue: Option<Seq<char>>, same_source: bool, latest: Option<u128>) -> Option<Seq<char>> {
    match write_issue {
        Some(issue) => Some(issue),
        None => if !same_source {
            Some("Collections or statuses changed. Your unsaved changes are kept."@)
        } else if d.published_from is Some && latest == d.published_from {
            Some("Waiting for library refresh."@)
        } else if latest != Some(d.base.revision_id) {
            Some("This game changed elsewhere. Your unsaved changes are kept."@)
        } else {
            None
        },
    }
}

/// What the form holds: `personal` with the tags text read one tag per line and the
/// notes text as it stands.
pub fn form_value(personal: &PersonalData, tags: &str, notes: &str) -> (r: PersonalData)
    ensures
        strs(r.tags@) == text_lines(tags@),
        r.notes@ == notes@,
        personal_same(r, (PersonalData { tags: r.tags, notes: r.notes, ..*personal })),
{
    let mut value = personal.dup();
    value.tags = lines(tags);
    value.notes = notes.to_owned();
    value
}

impl Draft {
    /// A draft of the personal data of `base`.
    pub fn new(base: GameRevision) -> (r: Draft)
        ensures
            r.base == base,
            r.published_from is None,
            !r.failed,
    {
        Draft { base, published_from: None, failed: false }
    }

    /// The draft differs from the revision it edits.
    pub fn changed(&self, value: &PersonalData) -> (r: bool)
        ensures
            r == !personal_same(*value, self.base.game.personal),
    {
        !personal_eq(value, &self.base.game.personal)
    }

    /// Follows the record the library now shows for this game, when a provider refresh
    /// advanced it without touching personal data. Returns whether the draft moved.
    pub fn rebase(&mut self, latest: &GameRevision) -> (r: bool)
        ensures
            r == rebases(*old(self), *latest),
            r ==> revision_same(final(self).base, *latest) && final(self).published_from is None
                && final(self).failed == old(self).failed,
            !r ==> *final(self) == *old(self),
    {
        let moved = latest.revision_id != self.base.revision_id && self.published_from != Some(latest.revision_id)
            && personal_eq(&latest.game.personal, &self.base.game.personal);
        if moved {
            self.base = latest.dup();
            self.published_from = None;
        }
        moved
    }

    /// Why the draft cannot be saved now: the library needs attention, its definitions
    /// changed, the last save has not reached the view yet, or the game changed elsewhere.
    /// `latest` is the revision the view shows for this game.
    pub fn blocked(&self, write_issue: &Option<String>, same_source: bool, latest: Option<u128>) -> (r: Option<String>)
        ensures
            crate::records::opt_str(r) == block_reason(*self, crate::records::opt_str(*write_issue), same_source, latest),
    {
        if let Some(issue) = write_issue {
            return Some(issue.clone());
        }
        if !same_source {
            return Some(String::from_str("Collections or statuses changed. Your unsaved changes are kept."));
        }
        if self.published_from.is_some() && latest == self.published_from {
            return Some(String::from_str("Waiting for library refresh."));
        }
        if latest != Some(self.base.revision_id) {
            return Some(String::from_str("This game changed elsewhere. Your unsaved changes are kept."));
        }
        None
    }

    /// The form should be read again from `record`: nothing is pending, and either the
    /// definitions changed or the game moved to a revision this draft did not publish.
    pub fn needs_reload(&self, busy: bool, same_manifest: bool, record: &GameRevision) -> (r: bool)
        ensures
            r == (!busy && (!same_manifest || (record.revision_id != self.base.revision_id
                && self.published_from != Some(record.revision_id)))),
    {
        !busy && (!same_manifest || (record.revision_id != self.base.revision_id
            && self.published_from != Some(record.revision_id)))
    }

    /// A save succeeded with `record`: the draft now edits it, remembering the revision it
    /// replaced until the library shows the new one.
    pub fn saved(&mut self, record: GameRevision)
        ensures
            final(self).base == record,
            final(self).published_from == Some(old(self).base.revision_id),
            !final(self).failed,
    {
        self.published_from = Some(self.base.revision_id);
        self.base = record;
        self.failed = false;
    }

    /// A save failed; the draft is kept and not retried until it changes again.
    pub fn save_failed(&mut self)
        ensures
            *final(self) == (Draft { failed: true, ..*old(self) }),
    {
        self.failed = true;
    }
}

} // verus!
