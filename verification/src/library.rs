//! Library identity and its ordered status and collection definitions.
//! Game values stay in game files; definitions change through revisions of their own.
use vstd::prelude::*;
use vstd::string::*;

use crate::records::{
    check_extra, check_parents, dup_ids, dup_opt_string, dup_string, extra_eq, extra_same, ids_distinct,
    ids_eq, opt_str, opt_string_eq, parents_distinct, parents_valid, uses_reserved, ExtraFields,
    FieldSet, SCHEMA_VERSION,
};
use crate::text::{is_blank, str_eq, trimmed};

verus! {

#[derive(Debug)]
pub struct StatusDefinition {
    pub key: String,
    pub label: String,
    pub recommendation_eligible: bool,
    pub extra: ExtraFields,
}

#[derive(Debug)]
pub struct CollectionDefinition {
    pub id: u128,
    pub name: String,
    pub archived: bool,
    pub extra: ExtraFields,
}

#[derive(Debug)]
pub struct LibraryDefinitions {
    pub name: String,
    pub default_status: String,
    /// Array order is the display order. Keys remain stable when labels change.
    pub statuses: Vec<StatusDefinition>,
    pub collections: Vec<CollectionDefinition>,
    /// The one Steam account this library was bound to, if any.
    pub steam_account: Option<String>,
    pub extra: ExtraFields,
}

#[derive(Debug)]
pub struct LibraryRevision {
    pub schema_version: u32,
    pub library_id: u128,
    pub revision_id: u128,
    pub parents: Vec<u128>,
    pub definitions: LibraryDefinitions,
    pub extra: ExtraFields,
}

/// Why library definitions may not be read as valid, written or changed.
#[derive(Debug, Clone, PartialEq, Eq)]
pub enum LibraryError {
    ReservedField,
    EmptyName,
    StatusKey,
    DuplicateStatus,
    EmptyLabel,
    UnknownDefault,
    CollectionId,
    DuplicateCollection,
    EmptyCollectionName,
    UnsupportedSchema,
    NilId,
    InvalidParents,
    StatusRemoval(String),
    CollectionRemoval(u128),
    Changed,
    OtherAccount,
    UnknownStatus,
}

/// A status key: 1 to 64 of `a-z`, `0-9`, `_` and `-`.
pub open spec fn key_ok(k: Seq<char>) -> bool {
    &&& 1 <= k.len() <= 64
    &&& forall|i: int|
        0 <= i < k.len() ==> ('a' <= #[trigger] k[i] <= 'z' || '0' <= k[i] <= '9' || k[i] == '_'
            || k[i] == '-')
}

pub fn is_status_key(k: &str) -> (r: bool)
    ensures
        r == key_ok(k@),
{
    let n = k.unicode_len();
    if n < 1 || n > 64 {
        return false;
    }
    let mut i: usize = 0;
    while i < n
        invariant
            n == k@.len(),
            i <= n,
            forall|j: int|
                0 <= j < i ==> ('a' <= #[trigger] k@[j] <= 'z' || '0' <= k@[j] <= '9' || k@[j]
                    == '_' || k@[j] == '-'),
        decreases n - i,
    {
        let c = k.get_char(i);
        if !(('a' <= c && c <= 'z') || ('0' <= c && c <= '9') || c == '_' || c == '-') {
            return false;
        }
        i += 1;
    }
    true
}

pub open spec fn has_status_key(s: Seq<StatusDefinition>, k: Seq<char>) -> bool {
    exists|i: int| 0 <= i < s.len() && #[trigger] s[i].key@ == k
}

pub open spec fn has_collection(s: Seq<CollectionDefinition>, id: u128) -> bool {
    exists|i: int| 0 <= i < s.len() && #[trigger] s[i].id == id
}

/// The first rule that status `st` breaks, given the statuses before it.
pub open spec fn status_violation(st: StatusDefinition, earlier: Seq<StatusDefinition>) -> Option<LibraryError> {
    if uses_reserved(st.extra, FieldSet::Status) {
        Some(LibraryError::ReservedField)
    } else if !key_ok(st.key@) {
        Some(LibraryError::StatusKey)
    } else if has_status_key(earlier, st.key@) {
        Some(LibraryError::DuplicateStatus)
    } else if trimmed(st.label@).len() == 0 {
        Some(LibraryError::EmptyLabel)
    } else {
        None
    }
}

/// The first rule that the statuses break, in display order.
pub open spec fn statuses_violation(s: Seq<StatusDefinition>) -> Option<LibraryError>
    decreases s.len(),
{
    if s.len() == 0 {
        None
    } else {
        match statuses_violation(s.drop_last()) {
            Some(e) => Some(e),
            None => status_violation(s.last(), s.drop_last()),
        }
    }
}

pub open spec fn collection_violation(c: CollectionDefinition, earlier: Seq<CollectionDefinition>) -> Option<LibraryError> {
    if uses_reserved(c.extra, FieldSet::Collection) {
        Some(LibraryError::ReservedField)
    } else if c.id == 0 {
        Some(LibraryError::CollectionId)
    } else if has_collection(earlier, c.id) {
        Some(LibraryError::DuplicateCollection)
    } else if trimmed(c.name@).len() == 0 {
        Some(LibraryError::EmptyCollectionName)
    } else {
        None
    }
}

pub open spec fn collections_violation(s: Seq<CollectionDefinition>) -> Option<LibraryError>
    decreases s.len(),
{
    if s.len() == 0 {
        None
    } else {
        match collections_violation(s.drop_last()) {
            Some(e) => Some(e),
            None => collection_violation(s.last(), s.drop_last()),
        }
    }
}

/// The first rule, in checking order, that the definitions break.
pub open spec fn definitions_violation(d: LibraryDefinitions) -> Option<LibraryError> {
    if uses_reserved(d.extra, FieldSet::Definitions) {
        Some(LibraryError::ReservedField)
    } else if trimmed(d.name@).len() == 0 {
        Some(LibraryError::EmptyName)
    } else if statuses_violation(d.statuses@) is Some {
        statuses_violation(d.statuses@)
    } else if !has_status_key(d.statuses@, d.default_status@) {
        Some(LibraryError::UnknownDefault)
    } else {
        collections_violation(d.collections@)
    }
}

/// The first rule, in checking order, that a library revision breaks.
pub open spec fn library_violation(r: LibraryRevision) -> Option<LibraryError> {
    if uses_reserved(r.extra, FieldSet::LibraryRevision) {
        Some(LibraryError::ReservedField)
    } else if r.schema_version != SCHEMA_VERSION {
        Some(LibraryError::UnsupportedSchema)
    } else if r.library_id == 0 || r.revision_id == 0 {
        Some(LibraryError::NilId)
    } else if !(parents_distinct(r.parents@) && parents_valid(r.parents@, r.revision_id)) {
        Some(LibraryError::InvalidParents)
    } else {
        definitions_violation(r.definitions)
    }
}

fn status_in(s: &Vec<StatusDefinition>, upto: usize, key: &str) -> (r: bool)
    requires
        upto <= s.len(),
    ensures
        r == has_status_key(s@.subrange(0, upto as int), key@),
{
    let ghost pre = s@.subrange(0, upto as int);
    let mut i: usize = 0;
    while i < upto
        invariant
            upto <= s.len(),
            pre == s@.subrange(0, upto as int),
            i <= upto,
            forall|j: int| 0 <= j < i ==> #[trigger] s@[j].key@ != key@,
        decreases upto - i,
    {
        if str_eq(s[i].key.as_str(), key) {
            assert(pre[i as int].key@ == key@);
            return true;
        }
        i += 1;
    }
    assert forall|j: int| 0 <= j < pre.len() implies #[trigger] pre[j].key@ != key@ by {
        assert(pre[j] == s@[j]);
    }
    false
}

fn collection_in(s: &Vec<CollectionDefinition>, upto: usize, id: u128) -> (r: bool)
    requires
        upto <= s.len(),
    ensures
        r == has_collection(s@.subrange(0, upto as int), id),
{
    let ghost pre = s@.subrange(0, upto as int);
    let mut i: usize = 0;
    while i < upto
        invariant
            upto <= s.len(),
            pre == s@.subrange(0, upto as int),
            i <= upto,
            forall|j: int| 0 <= j < i ==> #[trigger] s@[j].id != id,
        decreases upto - i,
    {
        if s[i].id == id {
            assert(pre[i as int].id == id);
            return true;
        }
        i += 1;
    }
    assert forall|j: int| 0 <= j < pre.len() implies #[trigger] pre[j].id != id by {
        assert(pre[j] == s@[j]);
    }
    false
}

fn check_statuses(s: &Vec<StatusDefinition>) -> (r: Option<LibraryError>)
    ensures
        r == statuses_violation(s@),
{
    let mut i: usize = 0;
    while i < s.len()
        invariant
            i <= s.len(),
            statuses_violation(s@.subrange(0, i as int)) is None,
        decreases s.len() - i,
    {
        let st = &s[i];
        let ghost pre = s@.subrange(0, i as int);
        let ghost upto = s@.subrange(0, i + 1);
        assert(upto.drop_last() =~= pre);
        assert(upto.last() == s@[i as int]);
        if !check_extra(&st.extra, FieldSet::Status) {
            assert(statuses_violation(upto) == Some(LibraryError::ReservedField));
            assert(s@.subrange(0, s.len() as int) =~= s@);
            proof { lemma_statuses_prefix(s@, i as int + 1); }
            return Some(LibraryError::ReservedField);
        }
        let e = if !is_status_key(st.key.as_str()) {
            Some(LibraryError::StatusKey)
        } else if status_in(s, i, st.key.as_str()) {
            Some(LibraryError::DuplicateStatus)
        } else if is_blank(st.label.as_str()) {
            Some(LibraryError::EmptyLabel)
        } else {
            None
        };
        assert(e == status_violation(s@[i as int], pre));
        if e.is_some() {
            proof { lemma_statuses_prefix(s@, i as int + 1); }
            return e;
        }
        i += 1;
    }
    assert(s@.subrange(0, s.len() as int) =~= s@);
    None
}

proof fn lemma_statuses_prefix(s: Seq<StatusDefinition>, k: int)
    requires
        0 <= k <= s.len(),
        statuses_violation(s.subrange(0, k)) is Some,
    ensures
        statuses_violation(s) == statuses_violation(s.subrange(0, k)),
    decreases s.len() - k,
{
    if k < s.len() {
        assert(s.subrange(0, k + 1).drop_last() =~= s.subrange(0, k));
        lemma_statuses_prefix(s, k + 1);
    } else {
        assert(s.subrange(0, k) =~= s);
    }
}

proof fn lemma_collections_prefix(s: Seq<CollectionDefinition>, k: int)
    requires
        0 <= k <= s.len(),
        collections_violation(s.subrange(0, k)) is Some,
    ensures
        collections_violation(s) == collections_violation(s.subrange(0, k)),
    decreases s.len() - k,
{
    if k < s.len() {
        assert(s.subrange(0, k + 1).drop_last() =~= s.subrange(0, k));
        lemma_collections_prefix(s, k + 1);
    } else {
        assert(s.subrange(0, k) =~= s);
    }
}

fn check_collections(s: &Vec<CollectionDefinition>) -> (r: Option<LibraryError>)
    ensures
        r == collections_violation(s@),
{
    let mut i: usize = 0;
    while i < s.len()
        invariant
            i <= s.len(),
            collections_violation(s@.subrange(0, i as int)) is None,
        decreases s.len() - i,
    {
        let c = &s[i];
        let ghost pre = s@.subrange(0, i as int);
        let ghost upto = s@.subrange(0, i + 1);
        assert(upto.drop_last() =~= pre);
        assert(upto.last() == s@[i as int]);
        let e = if !check_extra(&c.extra, FieldSet::Collection) {
            Some(LibraryError::ReservedField)
        } else if c.id == 0 {
            Some(LibraryError::CollectionId)
        } else if collection_in(s, i, c.id) {
            Some(LibraryError::DuplicateCollection)
        } else if is_blank(c.name.as_str()) {
            Some(LibraryError::EmptyCollectionName)
        } else {
            None
        };
        assert(e == collection_violation(s@[i as int], pre));
        if e.is_some() {
            proof { lemma_collections_prefix(s@, i as int + 1); }
            return e;
        }
        i += 1;
    }
    assert(s@.subrange(0, s.len() as int) =~= s@);
    None
}

/// The first status with this key.
pub open spec fn first_status(s: Seq<StatusDefinition>, key: Seq<char>, i: int) -> bool {
    0 <= i < s.len() && s[i].key@ == key && forall|j: int| 0 <= j < i ==> #[trigger] s[j].key@ != key
}

impl LibraryDefinitions {
    pub fn status(&self, key: &str) -> (r: Option<&StatusDefinition>)
        ensures
            r is None == !has_status_key(self.statuses@, key@),
            r matches Some(st) ==> exists|i: int| first_status(self.statuses@, key@, i) && *st == self.statuses@[i],
    {
        let mut i: usize = 0;
        while i < self.statuses.len()
            invariant
                i <= self.statuses.len(),
                forall|j: int| 0 <= j < i ==> #[trigger] self.statuses@[j].key@ != key@,
            decreases self.statuses.len() - i,
        {
            if str_eq(self.statuses[i].key.as_str(), key) {
                assert(first_status(self.statuses@, key@, i as int));
                return Some(&self.statuses[i]);
            }
            i += 1;
        }
        None
    }

    /// Checks the definitions in a fixed order and reports the first rule they break.
    pub fn validate(&self) -> (r: Result<(), LibraryError>)
        ensures
            r == match definitions_violation(*self) {
                Some(e) => Err(e),
                None => Ok(()),
            },
    {
        if !check_extra(&self.extra, FieldSet::Definitions) {
            return Err(LibraryError::ReservedField);
        }
        if is_blank(self.name.as_str()) {
            return Err(LibraryError::EmptyName);
        }
        match check_statuses(&self.statuses) {
            Some(e) => {
                return Err(e);
            },
            None => {},
        }
        if self.status(self.default_status.as_str()).is_none() {
            return Err(LibraryError::UnknownDefault);
        }
        match check_collections(&self.collections) {
            Some(e) => Err(e),
            None => Ok(()),
        }
    }
}

impl LibraryRevision {
    pub fn validate(&self) -> (r: Result<(), LibraryError>)
        ensures
            r == match library_violation(*self) {
                Some(e) => Err(e),
                None => Ok(()),
            },
    {
        if !check_extra(&self.extra, FieldSet::LibraryRevision) {
            return Err(LibraryError::ReservedField);
        }
        if self.schema_version != SCHEMA_VERSION {
            return Err(LibraryError::UnsupportedSchema);
        }
        if self.library_id == 0 || self.revision_id == 0 {
            return Err(LibraryError::NilId);
        }
        if !(ids_distinct(&self.parents) && check_parents(&self.parents, self.revision_id)) {
            return Err(LibraryError::InvalidParents);
        }
        self.definitions.validate()
    }
}

} // verus!

verus! {

pub open spec fn status_is(st: StatusDefinition, key: Seq<char>, label: Seq<char>, eligible: bool) -> bool {
    st.key@ == key && st.label@ == label && st.recommendation_eligible == eligible
        && st.extra.entries.len() == 0
}

/// The six statuses a new library starts with, in display order.
pub open spec fn starter_statuses(s: Seq<StatusDefinition>) -> bool {
    &&& s.len() == 6
    &&& status_is(s[0], "backlog"@, "Backlog"@, true)
    &&& status_is(s[1], "wanted"@, "Want to play"@, true)
    &&& status_is(s[2], "playing"@, "Playing"@, true)
    &&& status_is(s[3], "paused"@, "Paused"@, false)
    &&& status_is(s[4], "completed"@, "Completed"@, false)
    &&& status_is(s[5], "dropped"@, "Dropped"@, false)
}

fn starter(key: &str, label: &str, eligible: bool) -> (r: StatusDefinition)
    ensures
        status_is(r, key@, label@, eligible),
{
    StatusDefinition {
        key: String::from_str(key),
        label: String::from_str(label),
        recommendation_eligible: eligible,
        extra: ExtraFields::new(),
    }
}

pub open spec fn status_same(a: StatusDefinition, b: StatusDefinition) -> bool {
    a.key@ == b.key@ && a.label@ == b.label@ && a.recommendation_eligible == b.recommendation_eligible
        && extra_same(a.extra, b.extra)
}

pub open spec fn collection_same(a: CollectionDefinition, b: CollectionDefinition) -> bool {
    a.id == b.id && a.name@ == b.name@ && a.archived == b.archived && extra_same(a.extra, b.extra)
}

pub open spec fn definitions_same(a: LibraryDefinitions, b: LibraryDefinitions) -> bool {
    &&& a.name@ == b.name@
    &&& a.default_status@ == b.default_status@
    &&& a.statuses.len() == b.statuses.len()
    &&& forall|i: int| 0 <= i < a.statuses.len() ==> status_same(#[trigger] a.statuses@[i], b.statuses@[i])
    &&& a.collections.len() == b.collections.len()
    &&& forall|i: int| 0 <= i < a.collections.len() ==> collection_same(#[trigger] a.collections@[i], b.collections@[i])
    &&& opt_str(a.steam_account) == opt_str(b.steam_account)
    &&& extra_same(a.extra, b.extra)
}

pub open spec fn library_same(a: LibraryRevision, b: LibraryRevision) -> bool {
    &&& a.schema_version == b.schema_version
    &&& a.library_id == b.library_id
    &&& a.revision_id == b.revision_id
    &&& a.parents@ == b.parents@
    &&& definitions_same(a.definitions, b.definitions)
    &&& extra_same(a.extra, b.extra)
}

impl StatusDefinition {
    pub fn dup(&self) -> (r: Self)
        ensures
            status_same(r, *self),
    {
        StatusDefinition {
            key: dup_string(&self.key),
            label: dup_string(&self.label),
            recommendation_eligible: self.recommendation_eligible,
            extra: self.extra.dup(),
        }
    }
}

impl CollectionDefinition {
    pub fn dup(&self) -> (r: Self)
        ensures
            collection_same(r, *self),
    {
        CollectionDefinition {
            id: self.id,
            name: dup_string(&self.name),
            archived: self.archived,
            extra: self.extra.dup(),
        }
    }
}

impl LibraryDefinitions {
    /// New definitions: the given name, the six starter statuses with `backlog` as default,
    /// no collections and no Steam account.
    pub fn new(name: &str) -> (r: Self)
        ensures
            r.name@ == name@,
            r.default_status@ == "backlog"@,
            starter_statuses(r.statuses@),
            r.collections.len() == 0,
            r.steam_account is None,
            r.extra.entries.len() == 0,
    {
        let mut statuses: Vec<StatusDefinition> = Vec::new();
        statuses.push(starter("backlog", "Backlog", true));
        statuses.push(starter("wanted", "Want to play", true));
        statuses.push(starter("playing", "Playing", true));
        statuses.push(starter("paused", "Paused", false));
        statuses.push(starter("completed", "Completed", false));
        statuses.push(starter("dropped", "Dropped", false));
        LibraryDefinitions {
            name: String::from_str(name),
            default_status: String::from_str("backlog"),
            statuses,
            collections: Vec::new(),
            steam_account: None,
            extra: ExtraFields::new(),
        }
    }

    pub fn dup(&self) -> (r: Self)
        ensures
            definitions_same(r, *self),
    {
        let mut statuses: Vec<StatusDefinition> = Vec::new();
        let mut i: usize = 0;
        while i < self.statuses.len()
            invariant
                i <= self.statuses.len(),
                statuses.len() == i,
                forall|j: int| 0 <= j < i ==> status_same(#[trigger] statuses@[j], self.statuses@[j]),
            decreases self.statuses.len() - i,
        {
            statuses.push(self.statuses[i].dup());
            i += 1;
        }
        let mut collections: Vec<CollectionDefinition> = Vec::new();
        let mut i: usize = 0;
        while i < self.collections.len()
            invariant
                i <= self.collections.len(),
                collections.len() == i,
                forall|j: int| 0 <= j < i ==> collection_same(#[trigger] collections@[j], self.collections@[j]),
            decreases self.collections.len() - i,
        {
            collections.push(self.collections[i].dup());
            i += 1;
        }
        LibraryDefinitions {
            name: dup_string(&self.name),
            default_status: dup_string(&self.default_status),
            statuses,
            collections,
            steam_account: dup_opt_string(&self.steam_account),
            extra: self.extra.dup(),
        }
    }
}

impl LibraryRevision {
    pub fn dup(&self) -> (r: Self)
        ensures
            library_same(r, *self),
    {
        LibraryRevision {
            schema_version: self.schema_version,
            library_id: self.library_id,
            revision_id: self.revision_id,
            parents: dup_ids(&self.parents),
            definitions: self.definitions.dup(),
            extra: self.extra.dup(),
        }
    }
}

} // verus!

verus! {

/// Status `j` of known revision `i` is missing from the new definitions.
pub open spec fn status_removed(known: Seq<LibraryRevision>, d: LibraryDefinitions, i: int, j: int) -> bool {
    &&& 0 <= i < known.len()
    &&& 0 <= j < known[i].definitions.statuses.len()
    &&& !has_status_key(d.statuses@, known[i].definitions.statuses@[j].key@)
}

/// Collection `j` of known revision `i` is missing from the new definitions.
pub open spec fn collection_removed(known: Seq<LibraryRevision>, d: LibraryDefinitions, i: int, j: int) -> bool {
    &&& 0 <= i < known.len()
    &&& 0 <= j < known[i].definitions.collections.len()
    &&& !has_collection(d.collections@, known[i].definitions.collections@[j].id)
}

pub open spec fn first_status_removed(known: Seq<LibraryRevision>, d: LibraryDefinitions, i: int, j: int) -> bool {
    &&& status_removed(known, d, i, j)
    &&& forall|a: int, b: int| (a < i || (a == i && b < j)) ==> !status_removed(known, d, a, b)
}

pub open spec fn first_collection_removed(known: Seq<LibraryRevision>, d: LibraryDefinitions, i: int, j: int) -> bool {
    &&& collection_removed(known, d, i, j)
    &&& forall|a: int, b: int| (a < i || (a == i && b < j)) ==> !collection_removed(known, d, a, b)
}

/// Merged status `m` is the given status `g`, keeping the unknown fields of the base
/// status with its key that the given one does not set.
pub open spec fn status_merged(m: StatusDefinition, g: StatusDefinition, base: Seq<StatusDefinition>) -> bool {
    &&& m.key@ == g.key@ && m.label@ == g.label@ && m.recommendation_eligible == g.recommendation_eligible
    &&& forall|k: Seq<char>| #[trigger] m.extra.has_key(k) == (g.extra.has_key(k) || exists|b: int|
        first_status(base, g.key@, b) && base[b].extra.has_key(k))
    &&& forall|x: int| 0 <= x < g.extra.entries.len() ==> #[trigger] m.extra.entries@[x].0@ == g.extra.entries@[x].0@
        && m.extra.entries@[x].1@ == g.extra.entries@[x].1@
}

/// The revision that saving definitions produces from `base`: the given definitions,
/// keeping the unknown fields of the base definitions and of each base status.
pub open spec fn definitions_saved(base: LibraryRevision, d: LibraryDefinitions, r: LibraryRevision) -> bool {
    &&& r.schema_version == base.schema_version
    &&& r.library_id == base.library_id
    &&& r.revision_id == base.revision_id
    &&& r.parents@ == base.parents@
    &&& extra_same(r.extra, base.extra)
    &&& r.definitions.name@ == d.name@
    &&& r.definitions.default_status@ == d.default_status@
    &&& opt_str(r.definitions.steam_account) == opt_str(d.steam_account)
    &&& r.definitions.collections.len() == d.collections.len()
    &&& forall|i: int| 0 <= i < d.collections.len() ==> collection_same(#[trigger] r.definitions.collections@[i], d.collections@[i])
    &&& r.definitions.statuses.len() == d.statuses.len()
    &&& forall|i: int| 0 <= i < d.statuses.len() ==> status_merged(#[trigger] r.definitions.statuses@[i], d.statuses@[i], base.definitions.statuses@)
    &&& forall|k: Seq<char>| #[trigger] r.definitions.extra.has_key(k) == (d.extra.has_key(k) || base.definitions.extra.has_key(k))
    &&& forall|x: int| 0 <= x < d.extra.entries.len() ==> #[trigger] r.definitions.extra.entries@[x].0@ == d.extra.entries@[x].0@
        && r.definitions.extra.entries@[x].1@ == d.extra.entries@[x].1@
}

fn find_removed_status(known: &Vec<LibraryRevision>, d: &LibraryDefinitions) -> (r: Option<(usize, usize)>)
    ensures
        match r {
            Some((i, j)) => first_status_removed(known@, *d, i as int, j as int),
            None => forall|a: int, b: int| !status_removed(known@, *d, a, b),
        },
{
    let mut i: usize = 0;
    while i < known.len()
        invariant
            i <= known.len(),
            forall|a: int, b: int| a < i ==> !status_removed(known@, *d, a, b),
        decreases known.len() - i,
    {
        let statuses = &known[i].definitions.statuses;
        let mut j: usize = 0;
        while j < statuses.len()
            invariant
                i < known.len(),
                *statuses == known@[i as int].definitions.statuses,
                j <= statuses.len(),
                forall|a: int, b: int| a < i ==> !status_removed(known@, *d, a, b),
                forall|b: int| b < j ==> !status_removed(known@, *d, i as int, b),
            decreases statuses.len() - j,
        {
            if d.status(statuses[j].key.as_str()).is_none() {
                return Some((i, j));
            }
            j += 1;
        }
        i += 1;
    }
    None
}

fn find_removed_collection(known: &Vec<LibraryRevision>, d: &LibraryDefinitions) -> (r: Option<(usize, usize)>)
    ensures
        match r {
            Some((i, j)) => first_collection_removed(known@, *d, i as int, j as int),
            None => forall|a: int, b: int| !collection_removed(known@, *d, a, b),
        },
{
    let mut i: usize = 0;
    while i < known.len()
        invariant
            i <= known.len(),
            forall|a: int, b: int| a < i ==> !collection_removed(known@, *d, a, b),
        decreases known.len() - i,
    {
        let collections = &known[i].definitions.collections;
        let mut j: usize = 0;
        while j < collections.len()
            invariant
                i < known.len(),
                *collections == known@[i as int].definitions.collections,
                j <= collections.len(),
                forall|a: int, b: int| a < i ==> !collection_removed(known@, *d, a, b),
                forall|b: int| b < j ==> !collection_removed(known@, *d, i as int, b),
            decreases collections.len() - j,
        {
            if !collection_in(&d.collections, d.collections.len(), collections[j].id) {
                assert(d.collections@.subrange(0, d.collections.len() as int) =~= d.collections@);
                return Some((i, j));
            }
            assert(d.collections@.subrange(0, d.collections.len() as int) =~= d.collections@);
            j += 1;
        }
        i += 1;
    }
    None
}

proof fn lemma_extra_same_keys(a: ExtraFields, b: ExtraFields)
    requires
        extra_same(a, b),
    ensures
        a.entries.len() == b.entries.len(),
        forall|x: int| 0 <= x < a.entries.len() ==> #[trigger] a.entries@[x].0@ == b.entries@[x].0@ && a.entries@[x].1@ == b.entries@[x].1@,
        forall|k: Seq<char>| #[trigger] a.has_key(k) == b.has_key(k),
{
    let fa = a.entries@.map_values(|e: (String, String)| (e.0@, e.1@));
    let fb = b.entries@.map_values(|e: (String, String)| (e.0@, e.1@));
    assert(fa.len() == fb.len());
    assert forall|x: int| 0 <= x < a.entries.len() implies #[trigger] a.entries@[x].0@ == b.entries@[x].0@ && a.entries@[x].1@ == b.entries@[x].1@ by {
        assert(fa[x] == fb[x]);
    }
    assert forall|k: Seq<char>| #[trigger] a.has_key(k) == b.has_key(k) by {
        if a.has_key(k) {
            let x = choose|x: int| 0 <= x < a.entries.len() && #[trigger] a.entries@[x].0@ == k;
            assert(b.entries@[x].0@ == k);
        }
        if b.has_key(k) {
            let x = choose|x: int| 0 <= x < b.entries.len() && #[trigger] b.entries@[x].0@ == k;
            assert(a.entries@[x].0@ == k);
        }
    }
}

/// Saves reviewed definitions over `base`. No status or collection that any known revision
/// defines may disappear, since synced games may still use it.
pub fn merge_definitions(known: &Vec<LibraryRevision>, base: &LibraryRevision, definitions: LibraryDefinitions) -> (r: Result<LibraryRevision, LibraryError>)
    ensures
        (exists|i: int, j: int| status_removed(known@, definitions, i, j)) ==> (r matches Err(LibraryError::StatusRemoval(k)) && exists|i: int, j: int|
            first_status_removed(known@, definitions, i, j) && k@ == known@[i].definitions.statuses@[j].key@),
        !(exists|i: int, j: int| status_removed(known@, definitions, i, j)) && (exists|i: int, j: int| collection_removed(known@, definitions, i, j))
            ==> (r matches Err(LibraryError::CollectionRemoval(id)) && exists|i: int, j: int|
            first_collection_removed(known@, definitions, i, j) && id == known@[i].definitions.collections@[j].id),
        !(exists|i: int, j: int| status_removed(known@, definitions, i, j)) && !(exists|i: int, j: int| collection_removed(known@, definitions, i, j))
            ==> (r matches Ok(rec) && definitions_saved(*base, definitions, rec)),
{
    match find_removed_status(known, &definitions) {
        Some((i, j)) => {
            return Err(LibraryError::StatusRemoval(known[i].definitions.statuses[j].key.clone()));
        },
        None => {},
    }
    match find_removed_collection(known, &definitions) {
        Some((i, j)) => {
            return Err(LibraryError::CollectionRemoval(known[i].definitions.collections[j].id));
        },
        None => {},
    }
    let ghost given = definitions;
    let mut definitions = definitions;
    definitions.extra.retain_from(&base.definitions.extra);
    let mut statuses: Vec<StatusDefinition> = Vec::new();
    let mut i: usize = 0;
    while i < definitions.statuses.len()
        invariant
            definitions.statuses@ == given.statuses@,
            i <= definitions.statuses.len(),
            statuses.len() == i,
            forall|x: int| 0 <= x < i ==> status_merged(#[trigger] statuses@[x], given.statuses@[x], base.definitions.statuses@),
        decreases definitions.statuses.len() - i,
    {
        let st = &definitions.statuses[i];
        let ghost old_statuses = statuses@;
        let mut extra = st.extra.dup();
        let ghost before = extra;
        match base.definitions.status(st.key.as_str()) {
            Some(prev) => {
                extra.retain_from(&prev.extra);
                proof {
                    assert forall|x: int| 0 <= x < before.entries.len() implies #[trigger] extra.entries@[x].0@ == before.entries@[x].0@ && extra.entries@[x].1@ == before.entries@[x].1@ by {
                        assert(extra.entries@[x].0@ == before.entries@[x].0@);
                    }
                    lemma_extra_same_keys(before, st.extra);
                    let b = choose|b: int| first_status(base.definitions.statuses@, st.key@, b) && *prev == base.definitions.statuses@[b];
                    assert forall|k: Seq<char>| #[trigger] extra.has_key(k) == (st.extra.has_key(k) || exists|b: int|
                        first_status(base.definitions.statuses@, st.key@, b) && base.definitions.statuses@[b].extra.has_key(k)) by {
                        if exists|b2: int| first_status(base.definitions.statuses@, st.key@, b2) && base.definitions.statuses@[b2].extra.has_key(k) {
                            let b2 = choose|b2: int| first_status(base.definitions.statuses@, st.key@, b2) && base.definitions.statuses@[b2].extra.has_key(k);
                            assert(b2 == b);
                        }
                    }
                }
            },
            None => {
                proof {
                    assert(forall|x: int| 0 <= x < before.entries.len() ==> #[trigger] extra.entries@[x].0@ == before.entries@[x].0@ && extra.entries@[x].1@ == before.entries@[x].1@);
                    lemma_extra_same_keys(extra, st.extra);
                    assert forall|k: Seq<char>| #[trigger] extra.has_key(k) == (st.extra.has_key(k) || exists|b: int|
                        first_status(base.definitions.statuses@, st.key@, b) && base.definitions.statuses@[b].extra.has_key(k)) by {
                        if exists|b: int| first_status(base.definitions.statuses@, st.key@, b) && base.definitions.statuses@[b].extra.has_key(k) {
                            let b = choose|b: int| first_status(base.definitions.statuses@, st.key@, b) && base.definitions.statuses@[b].extra.has_key(k);
                            assert(has_status_key(base.definitions.statuses@, st.key@));
                        }
                    }
                }
            },
        }
        let merged = StatusDefinition {
            key: dup_string(&st.key),
            label: dup_string(&st.label),
            recommendation_eligible: st.recommendation_eligible,
            extra,
        };
        proof {
            assert(*st == given.statuses@[i as int]);
            lemma_extra_same_keys(before, st.extra);
            assert forall|x: int| 0 <= x < st.extra.entries.len() implies #[trigger] merged.extra.entries@[x].0@ == st.extra.entries@[x].0@
                && merged.extra.entries@[x].1@ == st.extra.entries@[x].1@ by {
                assert(before.entries@[x].0@ == st.extra.entries@[x].0@);
                assert(extra.entries@[x].0@ == before.entries@[x].0@);
            }
            assert(status_merged(merged, given.statuses@[i as int], base.definitions.statuses@));
        }
        statuses.push(merged);
        proof {
            assert forall|x: int| 0 <= x < i + 1 implies status_merged(#[trigger] statuses@[x], given.statuses@[x], base.definitions.statuses@) by {
                if x < i {
                    assert(statuses@[x] == old_statuses[x]);
                }
            }
        }
        i += 1;
    }
    definitions.statuses = statuses;
    let mut record = base.dup();
    record.definitions = definitions;
    proof {
        assert(definitions_saved(*base, given, record));
    }
    Ok(record)
}

} // verus!

verus! {

pub fn status_eq(a: &StatusDefinition, b: &StatusDefinition) -> (r: bool)
    ensures
        r == status_same(*a, *b),
{
    a.key == b.key && a.label == b.label && a.recommendation_eligible == b.recommendation_eligible
        && extra_eq(&a.extra, &b.extra)
}

pub fn collection_eq(a: &CollectionDefinition, b: &CollectionDefinition) -> (r: bool)
    ensures
        r == collection_same(*a, *b),
{
    a.id == b.id && a.name == b.name && a.archived == b.archived && extra_eq(&a.extra, &b.extra)
}

pub fn definitions_eq(a: &LibraryDefinitions, b: &LibraryDefinitions) -> (r: bool)
    ensures
        r == definitions_same(*a, *b),
{
    if !(a.name == b.name && a.default_status == b.default_status && opt_string_eq(
        &a.steam_account,
        &b.steam_account,
    ) && extra_eq(&a.extra, &b.extra)) {
        return false;
    }
    if a.statuses.len() != b.statuses.len() || a.collections.len() != b.collections.len() {
        return false;
    }
    let mut i: usize = 0;
    while i < a.statuses.len()
        invariant
            a.statuses.len() == b.statuses.len(),
            i <= a.statuses.len(),
            forall|j: int| 0 <= j < i ==> status_same(#[trigger] a.statuses@[j], b.statuses@[j]),
        decreases a.statuses.len() - i,
    {
        if !status_eq(&a.statuses[i], &b.statuses[i]) {
            return false;
        }
        i += 1;
    }
    let mut i: usize = 0;
    while i < a.collections.len()
        invariant
            a.collections.len() == b.collections.len(),
            i <= a.collections.len(),
            forall|j: int| 0 <= j < i ==> collection_same(#[trigger] a.collections@[j], b.collections@[j]),
        decreases a.collections.len() - i,
    {
        if !collection_eq(&a.collections[i], &b.collections[i]) {
            return false;
        }
        i += 1;
    }
    true
}

pub fn library_eq(a: &LibraryRevision, b: &LibraryRevision) -> (r: bool)
    ensures
        r == library_same(*a, *b),
{
    a.schema_version == b.schema_version && a.library_id == b.library_id && a.revision_id
        == b.revision_id && ids_eq(&a.parents, &b.parents) && definitions_eq(
        &a.definitions,
        &b.definitions,
    ) && extra_eq(&a.extra, &b.extra)
}

} // verus!

verus! {

/// The sentence shown for a refusal of library definitions.
pub open spec fn library_error_text(e: LibraryError) -> Seq<char> {
    match e {
        LibraryError::ReservedField => "Extension fields must not replace known fields"@,
        LibraryError::EmptyName => "Library name is empty"@,
        LibraryError::StatusKey => "Status keys must use lowercase letters, digits, underscores, or hyphens (1\u{2013}64 bytes)"@,
        LibraryError::DuplicateStatus => "Duplicate status key"@,
        LibraryError::EmptyLabel => "Status label is empty"@,
        LibraryError::UnknownDefault => "Default status is not defined"@,
        LibraryError::CollectionId => "Collection IDs must not be nil"@,
        LibraryError::DuplicateCollection => "Duplicate collection ID"@,
        LibraryError::EmptyCollectionName => "Collection name is empty"@,
        LibraryError::UnsupportedSchema => "Unsupported library schema version"@,
        LibraryError::NilId => "Library IDs must not be nil"@,
        LibraryError::InvalidParents => "Invalid library revision parents"@,
        LibraryError::StatusRemoval(k) => "Status removal requires game reassignment: "@ + k@,
        LibraryError::CollectionRemoval(id) => "Collections are archived, not removed: "@ + crate::reader::uuid_text(id),
        LibraryError::Changed => "Library changed. Review its latest definitions"@,
        LibraryError::OtherAccount => "This library belongs to another Steam account"@,
        LibraryError::UnknownStatus => "Choose a status in this library"@,
    }
}

impl LibraryError {
    pub fn message(&self) -> (r: String)
        ensures
            r@ == library_error_text(*self),
    {
        match self {
            LibraryError::ReservedField => String::from_str("Extension fields must not replace known fields"),
            LibraryError::EmptyName => String::from_str("Library name is empty"),
            LibraryError::StatusKey => String::from_str("Status keys must use lowercase letters, digits, underscores, or hyphens (1\u{2013}64 bytes)"),
            LibraryError::DuplicateStatus => String::from_str("Duplicate status key"),
            LibraryError::EmptyLabel => String::from_str("Status label is empty"),
            LibraryError::UnknownDefault => String::from_str("Default status is not defined"),
            LibraryError::CollectionId => String::from_str("Collection IDs must not be nil"),
            LibraryError::DuplicateCollection => String::from_str("Duplicate collection ID"),
            LibraryError::EmptyCollectionName => String::from_str("Collection name is empty"),
            LibraryError::UnsupportedSchema => String::from_str("Unsupported library schema version"),
            LibraryError::NilId => String::from_str("Library IDs must not be nil"),
            LibraryError::InvalidParents => String::from_str("Invalid library revision parents"),
            LibraryError::StatusRemoval(k) => {
                let mut s = String::from_str("Status removal requires game reassignment: ");
                s.append(k.as_str());
                s
            },
            LibraryError::CollectionRemoval(id) => {
                let mut s = String::from_str("Collections are archived, not removed: ");
                let t = crate::reader::uuid_string(*id);
                s.append(t.as_str());
                s
            },
            LibraryError::Changed => String::from_str("Library changed. Review its latest definitions"),
            LibraryError::OtherAccount => String::from_str("This library belongs to another Steam account"),
            LibraryError::UnknownStatus => String::from_str("Choose a status in this library"),
        }
    }
}

} // verus!
