//! Device-local display preferences and the wording of the last Steam sync.
use vstd::prelude::*;
use vstd::string::*;

use crate::text::{decimal, push_decimal};

verus! {

/// How the library is ordered.
#[derive(Clone, Copy, Debug, PartialEq, Eq, Structural)]
pub enum SortBy {
    Name,
    Status,
    Hours,
    Collection,
}

/// How the library is grouped.
#[derive(Clone, Copy, Debug, PartialEq, Eq, Structural)]
pub enum GroupBy {
    Ungrouped,
    Status,
    Collections,
}

/// The display preferences of the library view.
#[derive(Clone, Copy, Debug, PartialEq, Eq, Structural)]
pub struct LibraryDisplay {
    pub sort: SortBy,
    pub descending: bool,
    pub group: GroupBy,
}

impl Default for SortBy {
    fn default() -> (r: Self)
        ensures
            r == SortBy::Name,
    {
        SortBy::Name
    }
}

impl Default for GroupBy {
    fn default() -> (r: Self)
        ensures
            r == GroupBy::Ungrouped,
    {
        GroupBy::Ungrouped
    }
}

impl Default for LibraryDisplay {
    /// By name, ascending, ungrouped.
    fn default() -> (r: Self)
        ensures
            r == (LibraryDisplay { sort: SortBy::Name, descending: false, group: GroupBy::Ungrouped }),
    {
        LibraryDisplay { sort: SortBy::Name, descending: false, group: GroupBy::Ungrouped }
    }
}

/// `std::time::SystemTime::now`, as whole seconds since the Unix epoch; `None` when the
/// clock reads before the epoch. The value depends on the clock, so nothing is stated of it.
#[verifier::external_body]
fn unix_now() -> (r: Option<u64>) {
    match std::time::SystemTime::now().duration_since(std::time::UNIX_EPOCH) {
        Ok(d) => Some(d.as_secs()),
        Err(_) => None,
    }
}

/// Seconds since a sync at `time`, read at `now`; zero when the clock cannot be read
/// or the sync lies in the future.
pub open spec fn sync_age(time: u64, now: Option<u64>) -> nat {
    match now {
        Some(n) => if n >= time { (n - time) as nat } else { 0 },
        None => 0,
    }
}

/// The footer and settings wording for the last completed Steam sync.
pub open spec fn sync_text(time: Option<u64>, now: Option<u64>) -> Seq<char> {
    match time {
        None => "No Steam sync time recorded"@,
        Some(t) => {
            let age = sync_age(t, now);
            if age < 60 {
                "Last Steam sync: just now"@
            } else if age < 3600 {
                "Last Steam sync: "@ + decimal(age / 60) + " min ago"@
            } else if age < 86400 {
                "Last Steam sync: "@ + decimal(age / 3600) + " hours ago"@
            } else {
                "Last Steam sync: "@ + decimal(age / 86400) + " days ago"@
            }
        },
    }
}

/// The wording for a sync at `time` as read at `now`.
pub fn sync_label_at(time: Option<u64>, now: Option<u64>) -> (r: String)
    ensures
        r@ == sync_text(time, now),
{
    match time {
        None => String::from_str("No Steam sync time recorded"),
        Some(t) => {
            let age: u64 = match now {
                Some(n) => if n >= t { n - t } else { 0 },
                None => 0,
            };
            if age < 60 {
                return String::from_str("Last Steam sync: just now");
            }
            let mut s = String::from_str("Last Steam sync: ");
            let ghost head = s@;
            proof {
                reveal_strlit("Last Steam sync: ");
            }
            if age < 3600 {
                push_decimal(&mut s, age / 60);
                s.append(" min ago");
            } else if age < 86400 {
                push_decimal(&mut s, age / 3600);
                s.append(" hours ago");
            } else {
                push_decimal(&mut s, age / 86400);
                s.append(" days ago");
            }
            s
        },
    }
}

/// The wording for a sync at `time`, read at the current time.
pub fn sync_label(time: Option<u64>) -> (r: String)
    ensures
        exists|now: Option<u64>| r@ == #[trigger] sync_text(time, now),
{
    let now = unix_now();
    let r = sync_label_at(time, now);
    assert(r@ == sync_text(time, now));
    r
}

} // verus!

verus! {

/// A Steam key that passed its connection test, with the key and profile text it was
/// tested with and the account it reached.
#[derive(Debug)]
pub struct TestedKey {
    pub key: String,
    pub input: String,
    pub profile: String,
    pub account: String,
}

impl TestedKey {
    /// The current key and profile fields, trimmed, are what was tested; any change needs
    /// another test before the key is saved.
    pub fn matches(&self, input: &str, profile: &str) -> (r: bool)
        ensures
            r == (self.input@ == crate::text::trimmed(input@) && self.profile@ == crate::text::trimmed(profile@)),
    {
        crate::text::str_eq(self.input.as_str(), crate::text::trim(input)) && crate::text::str_eq(self.profile.as_str(), crate::text::trim(profile))
    }
}

} // verus!
