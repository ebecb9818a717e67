//! Collection definitions as the sidebar and the review window change them: names are
//! checked, a removed collection is archived rather than dropped, and a resolved
//! conflict keeps every collection and status that any version knew.
use vstd::prelude::*;
use vstd::string::*;

use crate::library::{
    collection_same, has_collection, has_status_key, status_same, CollectionDefinition, LibraryDefinitions,
    LibraryRevision, StatusDefinition,
};
use crate::records::{extra_same, opt_str, ExtraFields};
use crate::revisions::{has_id, RevisionSnapshot};
use crate::text::trimmed;

verus! {

/// Why a collection name is refused.
#[derive(Debug, Clone, Copy, PartialEq, Eq, Structural)]
pub enum NameError {
    Empty,
    TooLong,
}

impl NameError {
    pub fn message(&self) -> (r: String)
        ensures
            r@ == match *self {
                NameError::Empty => "Enter a collection name."@,
                NameError::TooLong => "Choose a shorter collection name."@,
            },
    {
        match self {
            NameError::Empty => String::from_str("Enter a collection name."),
            NameError::TooLong => String::from_str("Choose a shorter collection name."),
        }
    }
}

/// The length in bytes that `str::len` reports for a text: its UTF-8 encoding's length.
pub open spec fn byte_len(s: Seq<char>) -> usize {
    vstd::utf8::encode_utf8(s).len() as usize
}

/// A collection name is the typed text trimmed, neither empty nor longer than 120 bytes.
pub open spec fn name_check(raw: Seq<char>) -> Result<Seq<char>, NameError> {
    let t = trimmed(raw);
    if t.len() == 0 {
        Err(NameError::Empty)
    } else if byte_len(t) > 120 {
        Err(NameError::TooLong)
    } else {
        Ok(t)
    }
}

pub fn check_collection_name(raw: &str) -> (r: Result<String, NameError>)
    ensures
        match (r, name_check(raw@)) {
            (Ok(a), Ok(b)) => a@ == b,
            (Err(a), Err(b)) => a == b,
            _ => false,
        },
{
    let t = crate::text::trim(raw);
    if t.unicode_len() == 0 {
        return Err(NameError::Empty);
    }
    if t.len() > 120 {
        return Err(NameError::TooLong);
    }
    Ok(t.to_owned())
}

/// `a` and `b` agree on everything but their collections.
pub open spec fn same_but_collections(a: LibraryDefinitions, b: LibraryDefinitions) -> bool {
    crate::library::definitions_same(LibraryDefinitions { collections: b.collections, ..a }, b)
}

/// `i` is the first collection with this ID.
pub open spec fn first_collection_at(cs: Seq<CollectionDefinition>, id: u128, i: int) -> bool {
    0 <= i < cs.len() && cs[i].id == id && forall|j: int| 0 <= j < i ==> #[trigger] cs[j].id != id
}

/// `n` is `d` with only collection `i` replaced by `c`.
pub open spec fn collection_replaced(d: LibraryDefinitions, i: int, c: CollectionDefinition, n: LibraryDefinitions) -> bool {
    &&& same_but_collections(n, d)
    &&& n.collections.len() == d.collections.len()
    &&& collection_same(n.collections@[i], c)
    &&& forall|j: int| 0 <= j < d.collections.len() && j != i ==> collection_same(#[trigger] n.collections@[j], d.collections@[j])
}

fn first_collection_index(cs: &Vec<CollectionDefinition>, id: u128) -> (r: Option<usize>)
    ensures
        match r {
            Some(i) => first_collection_at(cs@, id, i as int),
            None => !has_collection(cs@, id),
        },
{
    let mut i: usize = 0;
    while i < cs.len()
        invariant
            i <= cs.len(),
            forall|j: int| 0 <= j < i ==> #[trigger] cs@[j].id != id,
        decreases cs.len() - i,
    {
        if cs[i].id == id {
            return Some(i);
        }
        i += 1;
    }
    None
}

/// Replaces collection `i` of a copy of `d` by `c`.
fn replaced(d: &LibraryDefinitions, i: usize, c: CollectionDefinition) -> (n: LibraryDefinitions)
    requires
        i < d.collections.len(),
    ensures
        collection_replaced(*d, i as int, c, n),
{
    let mut n = d.dup();
    let ghost before = n.collections@;
    n.collections.set(i, c);
    proof {
        assert forall|j: int| 0 <= j < d.collections.len() && j != i implies collection_same(#[trigger] n.collections@[j], d.collections@[j]) by {
            assert(n.collections@[j] == before[j]);
        }
    }
    n
}

impl LibraryDefinitions {
    /// These definitions with the first collection of ID `id` renamed; None when no
    /// collection has this ID.
    pub fn with_collection_renamed(&self, id: u128, name: String) -> (r: Option<LibraryDefinitions>)
        ensures
            match r {
                Some(n) => exists|i: int| first_collection_at(self.collections@, id, i) && collection_replaced(*self, i,
                    CollectionDefinition { name: name, ..self.collections@[i] }, n),
                None => !has_collection(self.collections@, id),
            },
    {
        match first_collection_index(&self.collections, id) {
            Some(i) => {
                let old = &self.collections[i];
                let c = CollectionDefinition { id: old.id, name, archived: old.archived, extra: old.extra.dup() };
                let n = replaced(self, i, c);
                assert(collection_same(c, CollectionDefinition { name: name, ..self.collections@[i as int] }));
                Some(n)
            },
            None => None,
        }
    }

    /// These definitions with the first collection of ID `id` archived: it leaves the
    /// sidebar, while games keep their membership. None when no collection has this ID.
    pub fn with_collection_archived(&self, id: u128) -> (r: Option<LibraryDefinitions>)
        ensures
            match r {
                Some(n) => exists|i: int| first_collection_at(self.collections@, id, i) && collection_replaced(*self, i,
                    CollectionDefinition { archived: true, ..self.collections@[i] }, n),
                None => !has_collection(self.collections@, id),
            },
    {
        match first_collection_index(&self.collections, id) {
            Some(i) => {
                let old = &self.collections[i];
                let c = CollectionDefinition { id: old.id, name: old.name.clone(), archived: true, extra: old.extra.dup() };
                let n = replaced(self, i, c);
                assert(collection_same(c, CollectionDefinition { archived: true, ..self.collections@[i as int] }));
                Some(n)
            },
            None => None,
        }
    }

    /// These definitions with a new collection of this name at the end, under a fresh
    /// random ID.
    pub fn with_new_collection(&self, name: String) -> (r: LibraryDefinitions)
        ensures
            same_but_collections(r, *self),
            r.collections.len() == self.collections.len() + 1,
            forall|j: int| 0 <= j < self.collections.len() ==> collection_same(#[trigger] r.collections@[j], self.collections@[j]),
            r.collections@.last().name@ == name@,
            !r.collections@.last().archived,
            r.collections@.last().extra.entries.len() == 0,
            (r.collections@.last().id >> 76u128) & 0xfu128 == 4,
    {
        let mut n = self.dup();
        let ghost before = n.collections@;
        let id = crate::stores::random_id();
        n.collections.push(CollectionDefinition { id, name, archived: false, extra: ExtraFields::new() });
        proof {
            assert forall|j: int| 0 <= j < self.collections.len() implies collection_same(#[trigger] n.collections@[j], self.collections@[j]) by {
                assert(n.collections@[j] == before[j]);
            }
        }
        n
    }
}

} // verus!

verus! {

/// `c` is an archived copy of a collection that a known version defines.
pub open spec fn archived_copy(known: Seq<LibraryRevision>, c: CollectionDefinition) -> bool {
    exists|a: int, b: int|
        0 <= a < known.len() && 0 <= b < known[a].definitions.collections.len() && collection_same(c,
            CollectionDefinition { archived: true, ..#[trigger] known[a].definitions.collections@[b] })
}

/// `s` is a copy of a status that a known version defines.
pub open spec fn status_copy(known: Seq<LibraryRevision>, s: StatusDefinition) -> bool {
    exists|a: int, b: int|
        0 <= a < known.len() && 0 <= b < known[a].definitions.statuses.len() && status_same(s,
            #[trigger] known[a].definitions.statuses@[b])
}

/// The definitions a resolved conflict saves: `base`, followed by an archived copy of every
/// collection and a copy of every status that a known version defines and `base` lacks,
/// each ID and key once. Membership stays recoverable and no status key disappears.
pub open spec fn keeps_all(known: Seq<LibraryRevision>, base: LibraryDefinitions, r: LibraryDefinitions) -> bool {
    let bc = base.collections.len();
    let bs = base.statuses.len();
    &&& r.name@ == base.name@
    &&& r.default_status@ == base.default_status@
    &&& opt_str(r.steam_account) == opt_str(base.steam_account)
    &&& extra_same(r.extra, base.extra)
    &&& r.collections.len() >= bc
    &&& forall|i: int| 0 <= i < bc ==> collection_same(#[trigger] r.collections@[i], base.collections@[i])
    &&& forall|i: int| bc <= i < r.collections.len() ==> !has_collection(base.collections@, (#[trigger] r.collections@[i]).id)
        && archived_copy(known, r.collections@[i])
    &&& forall|i: int, j: int| bc <= i < j < r.collections.len() ==> r.collections@[i].id != r.collections@[j].id
    &&& forall|a: int, b: int| 0 <= a < known.len() && 0 <= b < known[a].definitions.collections.len()
        ==> has_collection(r.collections@, #[trigger] known[a].definitions.collections@[b].id)
    &&& r.statuses.len() >= bs
    &&& forall|i: int| 0 <= i < bs ==> status_same(#[trigger] r.statuses@[i], base.statuses@[i])
    &&& forall|i: int| bs <= i < r.statuses.len() ==> !has_status_key(base.statuses@, (#[trigger] r.statuses@[i]).key@)
        && status_copy(known, r.statuses@[i])
    &&& forall|i: int, j: int| bs <= i < j < r.statuses.len() ==> r.statuses@[i].key@ != r.statuses@[j].key@
    &&& forall|a: int, b: int| 0 <= a < known.len() && 0 <= b < known[a].definitions.statuses.len()
        ==> has_status_key(r.statuses@, #[trigger] known[a].definitions.statuses@[b].key@)
}

fn holds_collection(cs: &Vec<CollectionDefinition>, id: u128) -> (r: bool)
    ensures
        r == has_collection(cs@, id),
{
    first_collection_index(cs, id).is_some()
}

fn holds_status(ss: &Vec<StatusDefinition>, key: &str) -> (r: bool)
    ensures
        r == has_status_key(ss@, key@),
{
    let mut i: usize = 0;
    while i < ss.len()
        invariant
            i <= ss.len(),
            forall|j: int| 0 <= j < i ==> #[trigger] ss@[j].key@ != key@,
        decreases ss.len() - i,
    {
        if crate::text::str_eq(ss[i].key.as_str(), key) {
            return true;
        }
        i += 1;
    }
    false
}

/// Appends an archived copy of each collection of version `a` whose ID `out` lacks.
fn absorb_collections(out: &mut Vec<CollectionDefinition>, known: &Vec<LibraryRevision>, a: usize)
    requires
        a < known.len(),
    ensures
        final(out).len() >= old(out).len(),
        forall|i: int| 0 <= i < old(out).len() ==> #[trigger] final(out)@[i] == old(out)@[i],
        forall|i: int| old(out).len() <= i < final(out).len() ==> !has_collection(old(out)@, (#[trigger] final(out)@[i]).id)
            && archived_copy(known@, final(out)@[i]),
        forall|i: int, j: int| old(out).len() <= i < j < final(out).len() ==> final(out)@[i].id != final(out)@[j].id,
        forall|b: int| 0 <= b < known@[a as int].definitions.collections.len()
            ==> has_collection(final(out)@, #[trigger] known@[a as int].definitions.collections@[b].id),
        forall|x: u128| has_collection(old(out)@, x) ==> has_collection(final(out)@, x),
{
    let from = &known[a].definitions.collections;
    let ghost start = out@;
    let mut b: usize = 0;
    while b < from.len()
        invariant
            a < known.len(),
            *from == known@[a as int].definitions.collections,
            b <= from.len(),
            out.len() >= start.len(),
            forall|i: int| 0 <= i < start.len() ==> #[trigger] out@[i] == start[i],
            forall|i: int| start.len() <= i < out.len() ==> !has_collection(start, (#[trigger] out@[i]).id)
                && archived_copy(known@, out@[i]),
            forall|i: int, j: int| start.len() <= i < j < out.len() ==> out@[i].id != out@[j].id,
            forall|c: int| 0 <= c < b ==> has_collection(out@, #[trigger] from@[c].id),
            forall|x: u128| has_collection(start, x) ==> has_collection(out@, x),
        decreases from.len() - b,
    {
        let c = &from[b];
        let ghost before = out@;
        if !holds_collection(out, c.id) {
            let copy = CollectionDefinition { id: c.id, name: c.name.clone(), archived: true, extra: c.extra.dup() };
            out.push(copy);
            proof {
                let n = before.len() as int;
                assert(out@[n] == copy);
                assert forall|i: int| 0 <= i < n implies #[trigger] out@[i] == before[i] by {}
                assert(collection_same(copy, CollectionDefinition { archived: true, ..known@[a as int].definitions.collections@[b as int] }));
                assert(archived_copy(known@, copy));
                assert(!has_collection(start, copy.id)) by {
                    if has_collection(start, copy.id) {
                        let k = choose|k: int| 0 <= k < start.len() && #[trigger] start[k].id == copy.id;
                        assert(before[k] == start[k]);
                    }
                }
                assert forall|i: int, j: int| start.len() <= i < j < out.len() implies out@[i].id != out@[j].id by {
                    if j == n {
                        assert(out@[i] == before[i]);
                        assert(before[i].id != copy.id);
                    }
                }
                assert forall|cc: int| 0 <= cc < b + 1 implies has_collection(out@, #[trigger] from@[cc].id) by {
                    if cc == b {
                        assert(out@[n].id == from@[cc].id);
                    } else {
                        let k = choose|k: int| 0 <= k < before.len() && #[trigger] before[k].id == from@[cc].id;
                        assert(out@[k] == before[k]);
                    }
                }
                assert forall|x: u128| has_collection(start, x) implies has_collection(out@, x) by {
                    let k = choose|k: int| 0 <= k < before.len() && #[trigger] before[k].id == x;
                    assert(out@[k] == before[k]);
                }
            }
        } else {
            proof {
                assert forall|cc: int| 0 <= cc < b + 1 implies has_collection(out@, #[trigger] from@[cc].id) by {}
            }
        }
        b += 1;
    }
}

/// Appends a copy of each status of version `a` whose key `out` lacks.
fn absorb_statuses(out: &mut Vec<StatusDefinition>, known: &Vec<LibraryRevision>, a: usize)
    requires
        a < known.len(),
    ensures
        final(out).len() >= old(out).len(),
        forall|i: int| 0 <= i < old(out).len() ==> #[trigger] final(out)@[i] == old(out)@[i],
        forall|i: int| old(out).len() <= i < final(out).len() ==> !has_status_key(old(out)@, (#[trigger] final(out)@[i]).key@)
            && status_copy(known@, final(out)@[i]),
        forall|i: int, j: int| old(out).len() <= i < j < final(out).len() ==> final(out)@[i].key@ != final(out)@[j].key@,
        forall|b: int| 0 <= b < known@[a as int].definitions.statuses.len()
            ==> has_status_key(final(out)@, #[trigger] known@[a as int].definitions.statuses@[b].key@),
        forall|x: Seq<char>| has_status_key(old(out)@, x) ==> has_status_key(final(out)@, x),
{
    let from = &known[a].definitions.statuses;
    let ghost start = out@;
    let mut b: usize = 0;
    while b < from.len()
        invariant
            a < known.len(),
            *from == known@[a as int].definitions.statuses,
            b <= from.len(),
            out.len() >= start.len(),
            forall|i: int| 0 <= i < start.len() ==> #[trigger] out@[i] == start[i],
            forall|i: int| start.len() <= i < out.len() ==> !has_status_key(start, (#[trigger] out@[i]).key@)
                && status_copy(known@, out@[i]),
            forall|i: int, j: int| start.len() <= i < j < out.len() ==> out@[i].key@ != out@[j].key@,
            forall|c: int| 0 <= c < b ==> has_status_key(out@, #[trigger] from@[c].key@),
            forall|x: Seq<char>| has_status_key(start, x) ==> has_status_key(out@, x),
        decreases from.len() - b,
    {
        let s = &from[b];
        let ghost before = out@;
        if !holds_status(out, s.key.as_str()) {
            let copy = s.dup();
            out.push(copy);
            proof {
                let n = before.len() as int;
                assert(out@[n] == copy);
                assert forall|i: int| 0 <= i < n implies #[trigger] out@[i] == before[i] by {}
                assert(status_copy(known@, copy));
                assert(!has_status_key(start, copy.key@)) by {
                    if has_status_key(start, copy.key@) {
                        let k = choose|k: int| 0 <= k < start.len() && #[trigger] start[k].key@ == copy.key@;
                        assert(before[k] == start[k]);
                    }
                }
                assert forall|i: int, j: int| start.len() <= i < j < out.len() implies out@[i].key@ != out@[j].key@ by {
                    if j == n {
                        assert(out@[i] == before[i]);
                        assert(before[i].key@ != copy.key@);
                    }
                }
                assert forall|cc: int| 0 <= cc < b + 1 implies has_status_key(out@, #[trigger] from@[cc].key@) by {
                    if cc == b {
                        assert(out@[n].key@ == from@[cc].key@);
                    } else {
                        let k = choose|k: int| 0 <= k < before.len() && #[trigger] before[k].key@ == from@[cc].key@;
                        assert(out@[k] == before[k]);
                    }
                }
                assert forall|x: Seq<char>| has_status_key(start, x) implies has_status_key(out@, x) by {
                    let k = choose|k: int| 0 <= k < before.len() && #[trigger] before[k].key@ == x;
                    assert(out@[k] == before[k]);
                }
            }
        } else {
            proof {
                assert forall|cc: int| 0 <= cc < b + 1 implies has_status_key(out@, #[trigger] from@[cc].key@) by {}
            }
        }
        b += 1;
    }
}

} // verus!

verus! {

/// The definitions to save when a conflict of library definitions is resolved on `base`:
/// every collection of another version comes back archived, every status stays.
pub fn kept_definitions(known: &Vec<LibraryRevision>, base: &LibraryDefinitions) -> (r: LibraryDefinitions)
    ensures
        keeps_all(known@, *base, r),
{
    let mut d = base.dup();
    let ghost d0 = d;
    let mut a: usize = 0;
    while a < known.len()
        invariant
            a <= known.len(),
            crate::library::definitions_same(d0, *base),
            d.name == d0.name,
            d.default_status == d0.default_status,
            d.steam_account == d0.steam_account,
            d.extra == d0.extra,
            d.collections.len() >= d0.collections.len(),
            forall|i: int| 0 <= i < d0.collections.len() ==> #[trigger] d.collections@[i] == d0.collections@[i],
            forall|i: int| d0.collections.len() <= i < d.collections.len() ==> !has_collection(d0.collections@, (#[trigger] d.collections@[i]).id)
                && archived_copy(known@, d.collections@[i]),
            forall|i: int, j: int| d0.collections.len() <= i < j < d.collections.len() ==> d.collections@[i].id != d.collections@[j].id,
            forall|x: int, y: int| 0 <= x < a && 0 <= y < known@[x].definitions.collections.len()
                ==> has_collection(d.collections@, #[trigger] known@[x].definitions.collections@[y].id),
            d.statuses.len() >= d0.statuses.len(),
            forall|i: int| 0 <= i < d0.statuses.len() ==> #[trigger] d.statuses@[i] == d0.statuses@[i],
            forall|i: int| d0.statuses.len() <= i < d.statuses.len() ==> !has_status_key(d0.statuses@, (#[trigger] d.statuses@[i]).key@)
                && status_copy(known@, d.statuses@[i]),
            forall|i: int, j: int| d0.statuses.len() <= i < j < d.statuses.len() ==> d.statuses@[i].key@ != d.statuses@[j].key@,
            forall|x: int, y: int| 0 <= x < a && 0 <= y < known@[x].definitions.statuses.len()
                ==> has_status_key(d.statuses@, #[trigger] known@[x].definitions.statuses@[y].key@),
        decreases known.len() - a,
    {
        let ghost before = d;
        absorb_collections(&mut d.collections, known, a);
        absorb_statuses(&mut d.statuses, known, a);
        proof {
            assert forall|i: int| d0.collections.len() <= i < d.collections.len() implies !has_collection(d0.collections@, (#[trigger] d.collections@[i]).id)
                && archived_copy(known@, d.collections@[i]) by {
                if i < before.collections.len() {
                    assert(d.collections@[i] == before.collections@[i]);
                } else if has_collection(d0.collections@, d.collections@[i].id) {
                    let k = choose|k: int| 0 <= k < d0.collections.len() && #[trigger] d0.collections@[k].id == d.collections@[i].id;
                    assert(before.collections@[k] == d0.collections@[k]);
                    assert(has_collection(before.collections@, d.collections@[i].id));
                }
            }
            assert forall|i: int, j: int| d0.collections.len() <= i < j < d.collections.len() implies d.collections@[i].id != d.collections@[j].id by {
                if j < before.collections.len() {
                    assert(d.collections@[i] == before.collections@[i]);
                    assert(d.collections@[j] == before.collections@[j]);
                } else if i < before.collections.len() {
                    assert(d.collections@[i] == before.collections@[i]);
                    assert(has_collection(before.collections@, before.collections@[i].id));
                }
            }
            assert forall|x: int, y: int| 0 <= x < a + 1 && 0 <= y < known@[x].definitions.collections.len()
                implies has_collection(d.collections@, #[trigger] known@[x].definitions.collections@[y].id) by {
                if x < a {
                    assert(has_collection(before.collections@, known@[x].definitions.collections@[y].id));
                }
            }
            assert forall|i: int| d0.statuses.len() <= i < d.statuses.len() implies !has_status_key(d0.statuses@, (#[trigger] d.statuses@[i]).key@)
                && status_copy(known@, d.statuses@[i]) by {
                if i < before.statuses.len() {
                    assert(d.statuses@[i] == before.statuses@[i]);
                } else if has_status_key(d0.statuses@, d.statuses@[i].key@) {
                    let k = choose|k: int| 0 <= k < d0.statuses.len() && #[trigger] d0.statuses@[k].key@ == d.statuses@[i].key@;
                    assert(before.statuses@[k] == d0.statuses@[k]);
                    assert(has_status_key(before.statuses@, d.statuses@[i].key@));
                }
            }
            assert forall|i: int, j: int| d0.statuses.len() <= i < j < d.statuses.len() implies d.statuses@[i].key@ != d.statuses@[j].key@ by {
                if j < before.statuses.len() {
                    assert(d.statuses@[i] == before.statuses@[i]);
                    assert(d.statuses@[j] == before.statuses@[j]);
                } else if i < before.statuses.len() {
                    assert(d.statuses@[i] == before.statuses@[i]);
                    assert(has_status_key(before.statuses@, before.statuses@[i].key@));
                }
            }
            assert forall|x: int, y: int| 0 <= x < a + 1 && 0 <= y < known@[x].definitions.statuses.len()
                implies has_status_key(d.statuses@, #[trigger] known@[x].definitions.statuses@[y].key@) by {
                if x < a {
                    assert(has_status_key(before.statuses@, known@[x].definitions.statuses@[y].key@));
                }
            }
        }
        a += 1;
    }
    proof {
        assert forall|i: int| 0 <= i < base.collections.len() implies collection_same(#[trigger] d.collections@[i], base.collections@[i]) by {
            assert(d.collections@[i] == d0.collections@[i]);
        }
        assert forall|i: int| 0 <= i < base.statuses.len() implies status_same(#[trigger] d.statuses@[i], base.statuses@[i]) by {
            assert(d.statuses@[i] == d0.statuses@[i]);
        }
        assert forall|i: int| base.collections.len() <= i < d.collections.len() implies !has_collection(base.collections@, (#[trigger] d.collections@[i]).id) by {
            if has_collection(base.collections@, d.collections@[i].id) {
                let k = choose|k: int| 0 <= k < base.collections.len() && #[trigger] base.collections@[k].id == d.collections@[i].id;
                assert(collection_same(d0.collections@[k], base.collections@[k]));
                assert(has_collection(d0.collections@, d.collections@[i].id));
            }
        }
        assert forall|i: int| base.statuses.len() <= i < d.statuses.len() implies !has_status_key(base.statuses@, (#[trigger] d.statuses@[i]).key@) by {
            if has_status_key(base.statuses@, d.statuses@[i].key@) {
                let k = choose|k: int| 0 <= k < base.statuses.len() && #[trigger] base.statuses@[k].key@ == d.statuses@[i].key@;
                assert(status_same(d0.statuses@[k], base.statuses@[k]));
                assert(has_status_key(d0.statuses@, d.statuses@[i].key@));
            }
        }
    }
    d
}

/// The revision a review of conflicting definitions works from: the chosen version when
/// the snapshot has it, otherwise the current one.
pub fn review_base(snapshot: &RevisionSnapshot<LibraryRevision>, choice: u128) -> (r: Option<&LibraryRevision>)
    requires
        snapshot.wf(),
    ensures
        match r {
            Some(b) => snapshot.revisions@.contains(*b) && (b.revision_id == choice || (!has_id(snapshot.revisions@, choice)
                && snapshot.issues@.len() == 0 && snapshot.heads@.len() == 1 && b.revision_id == snapshot.heads@[0])),
            None => !has_id(snapshot.revisions@, choice) && !(snapshot.issues@.len() == 0 && snapshot.heads@.len() == 1
                && has_id(snapshot.revisions@, snapshot.heads@[0])),
        },
{
    match snapshot.find(choice) {
        Some(j) => {
            assert(snapshot.revisions@.contains(snapshot.revisions@[j as int]));
            Some(&snapshot.revisions[j])
        },
        None => snapshot.current(),
    }
}

/// Definitions kept by a resolution drop no status and no collection that a known
/// version defines, so the guarded save never refuses them for a removal.
pub proof fn law_kept_definitions_drop_nothing(known: Seq<LibraryRevision>, base: LibraryDefinitions, r: LibraryDefinitions)
    requires
        keeps_all(known, base, r),
    ensures
        !crate::stores::drops_status(known, r),
        !crate::stores::drops_collection(known, r),
{
    assert forall|i: int, j: int| !crate::library::status_removed(known, r, i, j) by {
        if 0 <= i < known.len() && 0 <= j < known[i].definitions.statuses.len() {
            assert(has_status_key(r.statuses@, known[i].definitions.statuses@[j].key@));
        }
    }
    assert forall|i: int, j: int| !crate::library::collection_removed(known, r, i, j) by {
        if 0 <= i < known.len() && 0 <= j < known[i].definitions.collections.len() {
            assert(has_collection(r.collections@, known[i].definitions.collections@[j].id));
        }
    }
}

} // verus!
