//! Portable game records. Provider values never replace personal overrides,
//! and every record is checked before it is read as valid or written.
use vstd::prelude::*;
use vstd::string::*;

use crate::text::{is_blank, str_eq, trimmed};

verus! {

/// The only record schema this library reads and writes.
pub const SCHEMA_VERSION: u32 = 1;

/// Unknown fields, kept so that a newer client's data survives an edit here:
/// each entry is a field name and its JSON value as compact text.
#[derive(Debug, Clone)]
pub struct ExtraFields {
    pub entries: Vec<(String, String)>,
}

#[derive(Debug, Clone)]
pub struct SteamMetadata {
    pub genres: Vec<String>,
    pub release_year: Option<String>,
    pub review_label: Option<String>,
    pub review_percent: Option<u8>,
    pub cover: Option<String>,
    pub details_complete: bool,
    pub reviews_complete: bool,
    pub cover_complete: bool,
}

#[derive(Debug, Clone)]
pub struct SteamData {
    pub app_id: u32,
    pub description: Option<String>,
    pub playtime_minutes: u32,
    pub owned: bool,
    pub metadata: Option<SteamMetadata>,
    pub extra: ExtraFields,
}

#[derive(Debug, Clone)]
pub struct PersonalData {
    /// Stable status key; a label can change without changing this value.
    pub status: String,
    /// Half-star units, 1 through 10. None means unrated.
    pub rating: Option<u8>,
    pub favorite: bool,
    pub tags: Vec<String>,
    pub notes: String,
    /// None uses provider text. Some("") is an intentional blank override.
    pub description: Option<String>,
    /// Portable path within media/, never an absolute device path.
    pub cover: Option<String>,
    pub collections: Vec<u128>,
    pub hidden: bool,
    pub extra: ExtraFields,
}

#[derive(Debug, Clone)]
pub struct GameData {
    pub title: String,
    pub steam: Option<SteamData>,
    pub personal: PersonalData,
    pub extra: ExtraFields,
}

/// One immutable revision of a game. Identities are UUIDs held as 128-bit integers;
/// zero is the nil UUID.
#[derive(Debug, Clone)]
pub struct GameRevision {
    pub schema_version: u32,
    pub game_id: u128,
    pub revision_id: u128,
    pub parents: Vec<u128>,
    /// An explicit tombstone. Missing files never imply deletion.
    pub deleted: bool,
    pub game: GameData,
    pub extra: ExtraFields,
}

/// Why a record may not be read as valid or written.
#[derive(Debug, Clone, Copy, PartialEq, Eq, Structural)]
pub enum RecordError {
    ReservedField,
    UnsupportedSchema(u32),
    NilId,
    DuplicateParent,
    InvalidParent,
    EmptyTitle,
    EmptyStatus,
    Rating,
    SteamAppId,
    Cover,
}

impl ExtraFields {
    pub open spec fn has_key(self, k: Seq<char>) -> bool {
        exists|i: int| 0 <= i < self.entries.len() && #[trigger] self.entries@[i].0@ == k
    }

    pub fn new() -> (r: Self)
        ensures
            r.entries@.len() == 0,
    {
        ExtraFields { entries: Vec::new() }
    }

    pub fn contains_key(&self, k: &str) -> (r: bool)
        ensures
            r == self.has_key(k@),
    {
        let mut i: usize = 0;
        while i < self.entries.len()
            invariant
                i <= self.entries.len(),
                forall|j: int| 0 <= j < i ==> #[trigger] self.entries@[j].0@ != k@,
            decreases self.entries.len() - i,
        {
            if str_eq(self.entries[i].0.as_str(), k) {
                return true;
            }
            i += 1;
        }
        false
    }
}

pub open spec fn opt_str(a: Option<String>) -> Option<Seq<char>> {
    match a {
        Some(s) => Some(s@),
        None => None,
    }
}

pub open spec fn strs(a: Seq<String>) -> Seq<Seq<char>> {
    a.map_values(|s: String| s@)
}

pub open spec fn extra_same(a: ExtraFields, b: ExtraFields) -> bool {
    a.entries@.map_values(|e: (String, String)| (e.0@, e.1@)) == b.entries@.map_values(
        |e: (String, String)| (e.0@, e.1@),
    )
}

pub open spec fn metadata_same(a: SteamMetadata, b: SteamMetadata) -> bool {
    &&& strs(a.genres@) == strs(b.genres@)
    &&& opt_str(a.release_year) == opt_str(b.release_year)
    &&& opt_str(a.review_label) == opt_str(b.review_label)
    &&& a.review_percent == b.review_percent
    &&& opt_str(a.cover) == opt_str(b.cover)
    &&& a.details_complete == b.details_complete
    &&& a.reviews_complete == b.reviews_complete
    &&& a.cover_complete == b.cover_complete
}

pub open spec fn steam_same(a: SteamData, b: SteamData) -> bool {
    &&& a.app_id == b.app_id
    &&& opt_str(a.description) == opt_str(b.description)
    &&& a.playtime_minutes == b.playtime_minutes
    &&& a.owned == b.owned
    &&& match (a.metadata, b.metadata) {
        (None, None) => true,
        (Some(x), Some(y)) => metadata_same(x, y),
        _ => false,
    }
    &&& extra_same(a.extra, b.extra)
}

/// Two personal sections hold the same values.
pub open spec fn personal_same(a: PersonalData, b: PersonalData) -> bool {
    &&& a.status@ == b.status@
    &&& a.rating == b.rating
    &&& a.favorite == b.favorite
    &&& strs(a.tags@) == strs(b.tags@)
    &&& a.notes@ == b.notes@
    &&& opt_str(a.description) == opt_str(b.description)
    &&& opt_str(a.cover) == opt_str(b.cover)
    &&& a.collections@ == b.collections@
    &&& a.hidden == b.hidden
    &&& extra_same(a.extra, b.extra)
}

pub open spec fn game_same(a: GameData, b: GameData) -> bool {
    &&& a.title@ == b.title@
    &&& match (a.steam, b.steam) {
        (None, None) => true,
        (Some(x), Some(y)) => steam_same(x, y),
        _ => false,
    }
    &&& personal_same(a.personal, b.personal)
    &&& extra_same(a.extra, b.extra)
}

/// Two revisions hold the same content, as their JSON files would.
pub open spec fn revision_same(a: GameRevision, b: GameRevision) -> bool {
    &&& a.schema_version == b.schema_version
    &&& a.game_id == b.game_id
    &&& a.revision_id == b.revision_id
    &&& a.parents@ == b.parents@
    &&& a.deleted == b.deleted
    &&& game_same(a.game, b.game)
    &&& extra_same(a.extra, b.extra)
}

pub fn opt_string_eq(a: &Option<String>, b: &Option<String>) -> (r: bool)
    ensures
        r == (opt_str(*a) == opt_str(*b)),
{
    match (a, b) {
        (None, None) => true,
        (Some(x), Some(y)) => x.eq(y),
        _ => false,
    }
}

pub fn strings_eq(a: &Vec<String>, b: &Vec<String>) -> (r: bool)
    ensures
        r == (strs(a@) == strs(b@)),
{
    if a.len() != b.len() {
        assert(strs(a@).len() != strs(b@).len());
        return false;
    }
    let mut i: usize = 0;
    while i < a.len()
        invariant
            a.len() == b.len(),
            i <= a.len(),
            forall|j: int| 0 <= j < i ==> a@[j]@ == b@[j]@,
        decreases a.len() - i,
    {
        if a[i] != b[i] {
            assert(strs(a@)[i as int] != strs(b@)[i as int]);
            return false;
        }
        i += 1;
    }
    assert(strs(a@) =~= strs(b@));
    true
}

pub fn ids_eq(a: &Vec<u128>, b: &Vec<u128>) -> (r: bool)
    ensures
        r == (a@ == b@),
{
    if a.len() != b.len() {
        return false;
    }
    let mut i: usize = 0;
    while i < a.len()
        invariant
            a.len() == b.len(),
            i <= a.len(),
            forall|j: int| 0 <= j < i ==> a@[j] == b@[j],
        decreases a.len() - i,
    {
        if a[i] != b[i] {
            return false;
        }
        i += 1;
    }
    assert(a@ =~= b@);
    true
}

pub fn extra_eq(a: &ExtraFields, b: &ExtraFields) -> (r: bool)
    ensures
        r == extra_same(*a, *b),
{
    let ghost fa = a.entries@.map_values(|e: (String, String)| (e.0@, e.1@));
    let ghost fb = b.entries@.map_values(|e: (String, String)| (e.0@, e.1@));
    if a.entries.len() != b.entries.len() {
        assert(fa.len() != fb.len());
        return false;
    }
    let mut i: usize = 0;
    while i < a.entries.len()
        invariant
            a.entries.len() == b.entries.len(),
            i <= a.entries.len(),
            fa == a.entries@.map_values(|e: (String, String)| (e.0@, e.1@)),
            fb == b.entries@.map_values(|e: (String, String)| (e.0@, e.1@)),
            forall|j: int| 0 <= j < i ==> fa[j] == fb[j],
        decreases a.entries.len() - i,
    {
        if a.entries[i].0 != b.entries[i].0 || a.entries[i].1 != b.entries[i].1 {
            assert(fa[i as int] != fb[i as int]);
            return false;
        }
        i += 1;
    }
    assert(fa =~= fb);
    true
}

pub fn metadata_eq(a: &SteamMetadata, b: &SteamMetadata) -> (r: bool)
    ensures
        r == metadata_same(*a, *b),
{
    strings_eq(&a.genres, &b.genres) && opt_string_eq(&a.release_year, &b.release_year)
        && opt_string_eq(&a.review_label, &b.review_label) && a.review_percent == b.review_percent
        && opt_string_eq(&a.cover, &b.cover) && a.details_complete == b.details_complete
        && a.reviews_complete == b.reviews_complete && a.cover_complete == b.cover_complete
}

pub fn steam_eq(a: &SteamData, b: &SteamData) -> (r: bool)
    ensures
        r == steam_same(*a, *b),
{
    let meta = match (&a.metadata, &b.metadata) {
        (None, None) => true,
        (Some(x), Some(y)) => metadata_eq(x, y),
        _ => false,
    };
    a.app_id == b.app_id && opt_string_eq(&a.description, &b.description) && a.playtime_minutes
        == b.playtime_minutes && a.owned == b.owned && meta && extra_eq(&a.extra, &b.extra)
}

pub fn personal_eq(a: &PersonalData, b: &PersonalData) -> (r: bool)
    ensures
        r == personal_same(*a, *b),
{
    a.status == b.status && a.rating == b.rating && a.favorite == b.favorite && strings_eq(
        &a.tags,
        &b.tags,
    ) && a.notes == b.notes && opt_string_eq(&a.description, &b.description) && opt_string_eq(
        &a.cover,
        &b.cover,
    ) && ids_eq(&a.collections, &b.collections) && a.hidden == b.hidden && extra_eq(
        &a.extra,
        &b.extra,
    )
}

pub fn game_eq(a: &GameData, b: &GameData) -> (r: bool)
    ensures
        r == game_same(*a, *b),
{
    let steam = match (&a.steam, &b.steam) {
        (None, None) => true,
        (Some(x), Some(y)) => steam_eq(x, y),
        _ => false,
    };
    a.title == b.title && steam && personal_eq(&a.personal, &b.personal) && extra_eq(
        &a.extra,
        &b.extra,
    )
}

pub fn revision_eq(a: &GameRevision, b: &GameRevision) -> (r: bool)
    ensures
        r == revision_same(*a, *b),
{
    a.schema_version == b.schema_version && a.game_id == b.game_id && a.revision_id
        == b.revision_id && ids_eq(&a.parents, &b.parents) && a.deleted == b.deleted && game_eq(
        &a.game,
        &b.game,
    ) && extra_eq(&a.extra, &b.extra)
}

} // verus!

verus! {

pub fn dup_string(s: &String) -> (r: String)
    ensures
        r@ == s@,
{
    s.clone()
}

pub fn dup_opt_string(s: &Option<String>) -> (r: Option<String>)
    ensures
        opt_str(r) == opt_str(*s),
{
    match s {
        Some(x) => Some(x.clone()),
        None => None,
    }
}

pub fn dup_strings(v: &Vec<String>) -> (r: Vec<String>)
    ensures
        strs(r@) == strs(v@),
{
    let mut r: Vec<String> = Vec::new();
    let mut i: usize = 0;
    while i < v.len()
        invariant
            i <= v.len(),
            r.len() == i,
            forall|j: int| 0 <= j < i ==> r@[j]@ == v@[j]@,
        decreases v.len() - i,
    {
        r.push(v[i].clone());
        i += 1;
    }
    assert(strs(r@) =~= strs(v@));
    r
}

pub fn dup_ids(v: &Vec<u128>) -> (r: Vec<u128>)
    ensures
        r@ == v@,
{
    let mut r: Vec<u128> = Vec::new();
    let mut i: usize = 0;
    while i < v.len()
        invariant
            i <= v.len(),
            r@ == v@.subrange(0, i as int),
        decreases v.len() - i,
    {
        r.push(v[i]);
        i += 1;
        assert(r@ =~= v@.subrange(0, i as int));
    }
    assert(v@.subrange(0, v.len() as int) =~= v@);
    r
}

impl ExtraFields {
    pub fn dup(&self) -> (r: Self)
        ensures
            extra_same(r, *self),
    {
        let mut out: Vec<(String, String)> = Vec::new();
        let mut i: usize = 0;
        while i < self.entries.len()
            invariant
                i <= self.entries.len(),
                out.len() == i,
                forall|j: int|
                    0 <= j < i ==> out@[j].0@ == self.entries@[j].0@ && out@[j].1@ == self.entries@[j].1@,
            decreases self.entries.len() - i,
        {
            let k = self.entries[i].0.clone();
            let v = self.entries[i].1.clone();
            out.push((k, v));
            i += 1;
        }
        let r = ExtraFields { entries: out };
        assert(r.entries@.map_values(|e: (String, String)| (e.0@, e.1@)) =~= self.entries@.map_values(
            |e: (String, String)| (e.0@, e.1@),
        ));
        r
    }
}

impl SteamMetadata {
    pub fn dup(&self) -> (r: Self)
        ensures
            metadata_same(r, *self),
    {
        SteamMetadata {
            genres: dup_strings(&self.genres),
            release_year: dup_opt_string(&self.release_year),
            review_label: dup_opt_string(&self.review_label),
            review_percent: self.review_percent,
            cover: dup_opt_string(&self.cover),
            details_complete: self.details_complete,
            reviews_complete: self.reviews_complete,
            cover_complete: self.cover_complete,
        }
    }
}

impl SteamData {
    pub fn dup(&self) -> (r: Self)
        ensures
            steam_same(r, *self),
    {
        SteamData {
            app_id: self.app_id,
            description: dup_opt_string(&self.description),
            playtime_minutes: self.playtime_minutes,
            owned: self.owned,
            metadata: match &self.metadata {
                Some(m) => Some(m.dup()),
                None => None,
            },
            extra: self.extra.dup(),
        }
    }
}

impl PersonalData {
    pub fn dup(&self) -> (r: Self)
        ensures
            personal_same(r, *self),
    {
        PersonalData {
            status: dup_string(&self.status),
            rating: self.rating,
            favorite: self.favorite,
            tags: dup_strings(&self.tags),
            notes: dup_string(&self.notes),
            description: dup_opt_string(&self.description),
            cover: dup_opt_string(&self.cover),
            collections: dup_ids(&self.collections),
            hidden: self.hidden,
            extra: self.extra.dup(),
        }
    }
}

impl GameData {
    pub fn dup(&self) -> (r: Self)
        ensures
            game_same(r, *self),
    {
        GameData {
            title: dup_string(&self.title),
            steam: match &self.steam {
                Some(s) => Some(s.dup()),
                None => None,
            },
            personal: self.personal.dup(),
            extra: self.extra.dup(),
        }
    }
}

impl GameRevision {
    pub fn dup(&self) -> (r: Self)
        ensures
            revision_same(r, *self),
    {
        GameRevision {
            schema_version: self.schema_version,
            game_id: self.game_id,
            revision_id: self.revision_id,
            parents: dup_ids(&self.parents),
            deleted: self.deleted,
            game: self.game.dup(),
            extra: self.extra.dup(),
        }
    }
}

} // verus!

verus! {

/// The places where a record stores known fields; an unknown field there must not
/// reuse one of their names.
#[derive(Debug, Clone, Copy, PartialEq, Eq, Structural)]
pub enum FieldSet {
    GameRevision,
    Game,
    Personal,
    Steam,
    LibraryRevision,
    Definitions,
    Status,
    Collection,
}

pub open spec fn reserved(set: FieldSet, k: Seq<char>) -> bool {
    match set {
        FieldSet::GameRevision => k == "schema_version"@ || k == "game_id"@ || k == "revision_id"@
            || k == "parents"@ || k == "deleted"@ || k == "game"@,
        FieldSet::Game => k == "title"@ || k == "steam"@ || k == "personal"@,
        FieldSet::Personal => k == "status"@ || k == "rating"@ || k == "favorite"@ || k
            == "tags"@ || k == "notes"@ || k == "description"@ || k == "cover"@ || k
            == "collections"@ || k == "hidden"@,
        FieldSet::Steam => k == "app_id"@ || k == "description"@ || k == "playtime_minutes"@
            || k == "owned"@ || k == "metadata"@,
        FieldSet::LibraryRevision => k == "schema_version"@ || k == "library_id"@ || k
            == "revision_id"@ || k == "parents"@ || k == "definitions"@,
        FieldSet::Definitions => k == "name"@ || k == "default_status"@ || k == "statuses"@
            || k == "collections"@ || k == "steam_account"@,
        FieldSet::Status => k == "key"@ || k == "label"@ || k == "recommendation_eligible"@,
        FieldSet::Collection => k == "id"@ || k == "name"@ || k == "archived"@,
    }
}

pub fn is_reserved(set: FieldSet, k: &str) -> (r: bool)
    ensures
        r == reserved(set, k@),
{
    match set {
        FieldSet::GameRevision => str_eq(k, "schema_version") || str_eq(k, "game_id") || str_eq(
            k,
            "revision_id",
        ) || str_eq(k, "parents") || str_eq(k, "deleted") || str_eq(k, "game"),
        FieldSet::Game => str_eq(k, "title") || str_eq(k, "steam") || str_eq(k, "personal"),
        FieldSet::Personal => str_eq(k, "status") || str_eq(k, "rating") || str_eq(k, "favorite")
            || str_eq(k, "tags") || str_eq(k, "notes") || str_eq(k, "description") || str_eq(
            k,
            "cover",
        ) || str_eq(k, "collections") || str_eq(k, "hidden"),
        FieldSet::Steam => str_eq(k, "app_id") || str_eq(k, "description") || str_eq(
            k,
            "playtime_minutes",
        ) || str_eq(k, "owned") || str_eq(k, "metadata"),
        FieldSet::LibraryRevision => str_eq(k, "schema_version") || str_eq(k, "library_id")
            || str_eq(k, "revision_id") || str_eq(k, "parents") || str_eq(k, "definitions"),
        FieldSet::Definitions => str_eq(k, "name") || str_eq(k, "default_status") || str_eq(
            k,
            "statuses",
        ) || str_eq(k, "collections") || str_eq(k, "steam_account"),
        FieldSet::Status => str_eq(k, "key") || str_eq(k, "label") || str_eq(
            k,
            "recommendation_eligible",
        ),
        FieldSet::Collection => str_eq(k, "id") || str_eq(k, "name") || str_eq(k, "archived"),
    }
}

/// Some unknown field reuses a known field's name.
pub open spec fn uses_reserved(extra: ExtraFields, set: FieldSet) -> bool {
    exists|i: int| 0 <= i < extra.entries.len() && reserved(set, #[trigger] extra.entries@[i].0@)
}

pub fn check_extra(extra: &ExtraFields, set: FieldSet) -> (r: bool)
    ensures
        r == !uses_reserved(*extra, set),
{
    let mut i: usize = 0;
    while i < extra.entries.len()
        invariant
            i <= extra.entries.len(),
            forall|j: int| 0 <= j < i ==> !reserved(set, #[trigger] extra.entries@[j].0@),
        decreases extra.entries.len() - i,
    {
        if is_reserved(set, extra.entries[i].0.as_str()) {
            return false;
        }
        i += 1;
    }
    true
}

/// A dot segment (`.` or `..`) starts at position `a`.
pub open spec fn dot_segment_at(s: Seq<char>, a: int) -> bool {
    s[a] == '.' && (a + 1 == s.len() || s[a + 1] == '/' || (a + 1 < s.len() && s[a + 1] == '.' && (
    a + 2 == s.len() || s[a + 2] == '/')))
}

/// Position `i` of a path is acceptable: no backslash or colon, no empty segment
/// around a slash, and no dot segment starting there.
pub open spec fn path_char_ok(s: Seq<char>, i: int) -> bool {
    &&& s[i] != '\\' && s[i] != ':'
    &&& s[i] == '/' ==> (0 < i < s.len() - 1 && s[i + 1] != '/')
    &&& (i == 0 || s[i - 1] == '/') ==> !dot_segment_at(s, i)
}

/// A portable path inside `media/`: it starts with `media/`, holds neither `\` nor `:`,
/// and none of its `/`-separated parts is empty, `.` or `..`.
pub open spec fn portable_media_path(s: Seq<char>) -> bool {
    &&& crate::text::starts_with(s, "media/"@)
    &&& forall|i: int| 0 <= i < s.len() ==> path_char_ok(s, i)
}

pub fn is_portable_media_path(path: &str) -> (r: bool)
    ensures
        r == portable_media_path(path@),
{
    if !crate::text::has_prefix(path, "media/") {
        return false;
    }
    let n = path.unicode_len();
    let mut i: usize = 0;
    while i < n
        invariant
            n == path@.len(),
            i <= n,
            forall|k: int| 0 <= k < i ==> path_char_ok(path@, k),
        decreases n - i,
    {
        let c = path.get_char(i);
        if c == '\\' || c == ':' {
            assert(!path_char_ok(path@, i as int));
            return false;
        }
        if c == '/' {
            if i == 0 || i + 1 >= n || path.get_char(i + 1) == '/' {
                assert(!path_char_ok(path@, i as int));
                return false;
            }
        }
        let starts = i == 0 || path.get_char(i - 1) == '/';
        if starts && c == '.' {
            if i + 1 == n {
                assert(!path_char_ok(path@, i as int));
                return false;
            }
            let d = path.get_char(i + 1);
            if d == '/' {
                assert(!path_char_ok(path@, i as int));
                return false;
            }
            if d == '.' && (i + 2 == n || path.get_char(i + 2) == '/') {
                assert(!path_char_ok(path@, i as int));
                return false;
            }
        }
        assert(path_char_ok(path@, i as int));
        i += 1;
    }
    true
}

pub open spec fn parents_distinct(p: Seq<u128>) -> bool {
    forall|i: int, j: int| 0 <= i < j < p.len() ==> p[i] != p[j]
}

pub fn ids_distinct(p: &Vec<u128>) -> (r: bool)
    ensures
        r == parents_distinct(p@),
{
    let mut i: usize = 0;
    while i < p.len()
        invariant
            i <= p.len(),
            forall|a: int, b: int| 0 <= a < b < p.len() && a < i ==> p@[a] != p@[b],
        decreases p.len() - i,
    {
        let mut j: usize = i + 1;
        while j < p.len()
            invariant
                i < p.len(),
                i + 1 <= j <= p.len(),
                forall|a: int, b: int| 0 <= a < b < p.len() && a < i ==> p@[a] != p@[b],
                forall|b: int| i < b < j ==> p@[i as int] != p@[b],
            decreases p.len() - j,
        {
            if p[i] == p[j] {
                return false;
            }
            j += 1;
        }
        i += 1;
    }
    true
}

/// Every parent is a real revision other than this one.
pub open spec fn parents_valid(p: Seq<u128>, own: u128) -> bool {
    forall|i: int| 0 <= i < p.len() ==> p[i] != 0 && p[i] != own
}

pub fn check_parents(p: &Vec<u128>, own: u128) -> (r: bool)
    ensures
        r == parents_valid(p@, own),
{
    let mut i: usize = 0;
    while i < p.len()
        invariant
            i <= p.len(),
            forall|k: int| 0 <= k < i ==> p@[k] != 0 && p@[k] != own,
        decreases p.len() - i,
    {
        if p[i] == 0 || p[i] == own {
            return false;
        }
        i += 1;
    }
    true
}

/// The first rule, in checking order, that a game revision breaks.
pub open spec fn game_violation(r: GameRevision) -> Option<RecordError> {
    if uses_reserved(r.extra, FieldSet::GameRevision) || uses_reserved(r.game.extra, FieldSet::Game)
        || uses_reserved(r.game.personal.extra, FieldSet::Personal) || (r.game.steam matches Some(
        s,
    ) && uses_reserved(s.extra, FieldSet::Steam)) {
        Some(RecordError::ReservedField)
    } else if r.schema_version != SCHEMA_VERSION {
        Some(RecordError::UnsupportedSchema(r.schema_version))
    } else if r.game_id == 0 || r.revision_id == 0 {
        Some(RecordError::NilId)
    } else if !parents_distinct(r.parents@) {
        Some(RecordError::DuplicateParent)
    } else if !parents_valid(r.parents@, r.revision_id) {
        Some(RecordError::InvalidParent)
    } else if trimmed(r.game.title@).len() == 0 {
        Some(RecordError::EmptyTitle)
    } else if trimmed(r.game.personal.status@).len() == 0 {
        Some(RecordError::EmptyStatus)
    } else if r.game.personal.rating matches Some(v) && !(1 <= v <= 10) {
        Some(RecordError::Rating)
    } else if r.game.steam matches Some(s) && s.app_id == 0 {
        Some(RecordError::SteamAppId)
    } else if r.game.personal.cover matches Some(c) && !portable_media_path(c@) {
        Some(RecordError::Cover)
    } else {
        None
    }
}

/// The sentence shown for a record error.
pub open spec fn record_error_text(e: RecordError) -> Seq<char> {
    match e {
        RecordError::ReservedField => "Extension fields must not replace known fields"@,
        RecordError::UnsupportedSchema(v) => "Unsupported schema version "@ + crate::text::decimal(v as nat),
        RecordError::NilId => "Record IDs must not be nil"@,
        RecordError::DuplicateParent => "Duplicate revision parent"@,
        RecordError::InvalidParent => "Invalid revision parent"@,
        RecordError::EmptyTitle => "Game title is empty"@,
        RecordError::EmptyStatus => "Game status is empty"@,
        RecordError::Rating => "Rating must be from 0.5 to 5 stars"@,
        RecordError::SteamAppId => "Steam App ID must be positive"@,
        RecordError::Cover => "Cover must be a relative path inside media/"@,
    }
}

impl RecordError {
    pub fn message(&self) -> (r: String)
        ensures
            r@ == record_error_text(*self),
    {
        match self {
            RecordError::ReservedField => String::from_str(
                "Extension fields must not replace known fields",
            ),
            RecordError::UnsupportedSchema(v) => {
                let mut s = String::from_str("Unsupported schema version ");
                proof {
                    reveal_strlit("Unsupported schema version ");
                }
                crate::text::push_decimal(&mut s, *v as u64);
                s
            },
            RecordError::NilId => String::from_str("Record IDs must not be nil"),
            RecordError::DuplicateParent => String::from_str("Duplicate revision parent"),
            RecordError::InvalidParent => String::from_str("Invalid revision parent"),
            RecordError::EmptyTitle => String::from_str("Game title is empty"),
            RecordError::EmptyStatus => String::from_str("Game status is empty"),
            RecordError::Rating => String::from_str("Rating must be from 0.5 to 5 stars"),
            RecordError::SteamAppId => String::from_str("Steam App ID must be positive"),
            RecordError::Cover => String::from_str("Cover must be a relative path inside media/"),
        }
    }
}

impl GameRevision {
    /// Checks every rule of a readable, writable game revision, in a fixed order.
    pub fn validate(&self) -> (r: Result<(), RecordError>)
        ensures
            r == match game_violation(*self) {
                Some(e) => Err(e),
                None => Ok(()),
            },
    {
        let steam_extra_ok = match &self.game.steam {
            Some(s) => check_extra(&s.extra, FieldSet::Steam),
            None => true,
        };
        if !check_extra(&self.extra, FieldSet::GameRevision) || !check_extra(
            &self.game.extra,
            FieldSet::Game,
        ) || !check_extra(&self.game.personal.extra, FieldSet::Personal) || !steam_extra_ok {
            return Err(RecordError::ReservedField);
        }
        if self.schema_version != SCHEMA_VERSION {
            return Err(RecordError::UnsupportedSchema(self.schema_version));
        }
        if self.game_id == 0 || self.revision_id == 0 {
            return Err(RecordError::NilId);
        }
        if !ids_distinct(&self.parents) {
            return Err(RecordError::DuplicateParent);
        }
        if !check_parents(&self.parents, self.revision_id) {
            return Err(RecordError::InvalidParent);
        }
        if is_blank(self.game.title.as_str()) {
            return Err(RecordError::EmptyTitle);
        }
        if is_blank(self.game.personal.status.as_str()) {
            return Err(RecordError::EmptyStatus);
        }
        if let Some(v) = self.game.personal.rating {
            if !(1 <= v && v <= 10) {
                return Err(RecordError::Rating);
            }
        }
        if let Some(s) = &self.game.steam {
            if s.app_id == 0 {
                return Err(RecordError::SteamAppId);
            }
        }
        if let Some(c) = &self.game.personal.cover {
            if !is_portable_media_path(c.as_str()) {
                return Err(RecordError::Cover);
            }
        }
        Ok(())
    }
}

} // verus!

verus! {

impl ExtraFields {
    /// No two unknown fields share a name, as in the JSON object they come from.
    pub open spec fn unique_keys(self) -> bool {
        forall|i: int, j: int|
            0 <= i < j < self.entries.len() ==> self.entries@[i].0@ != self.entries@[j].0@
    }

    /// Keeps every unknown field of `previous` whose name this set does not already use.
    /// Fields already here win; nothing already here moves or changes.
    pub fn retain_from(&mut self, previous: &ExtraFields)
        ensures
            final(self).entries.len() >= old(self).entries.len(),
            forall|i: int|
                0 <= i < old(self).entries.len() ==> #[trigger] final(self).entries@[i].0@ == old(
                    self,
                ).entries@[i].0@ && final(self).entries@[i].1@ == old(self).entries@[i].1@,
            forall|i: int|
                old(self).entries.len() <= i < final(self).entries.len() ==> taken_from(
                    *previous,
                    *old(self),
                    #[trigger] final(self).entries@[i],
                ),
            forall|k: Seq<char>| #[trigger]
                final(self).has_key(k) == (old(self).has_key(k) || previous.has_key(k)),
            old(self).unique_keys() ==> final(self).unique_keys(),
    {
        let ghost orig = *self;
        let mut j: usize = 0;
        while j < previous.entries.len()
            invariant
                j <= previous.entries.len(),
                self.entries.len() >= orig.entries.len(),
                forall|i: int|
                    0 <= i < orig.entries.len() ==> #[trigger] self.entries@[i].0@ == orig.entries@[i].0@
                        && self.entries@[i].1@ == orig.entries@[i].1@,
                forall|i: int|
                    orig.entries.len() <= i < self.entries.len() ==> taken_from(
                        *previous,
                        orig,
                        #[trigger] self.entries@[i],
                    ),
                forall|k: Seq<char>| #[trigger]
                    self.has_key(k) == (orig.has_key(k) || exists|p: int|
                        0 <= p < j && #[trigger] previous.entries@[p].0@ == k),
                orig.unique_keys() ==> self.unique_keys(),
            decreases previous.entries.len() - j,
        {
            let present = self.contains_key(previous.entries[j].0.as_str());
            let ghost before = *self;
            if !present {
                let k = previous.entries[j].0.clone();
                let v = previous.entries[j].1.clone();
                self.entries.push((k, v));
                proof {
                    let n = self.entries.len() - 1;
                    assert(self.entries@[n].0@ == previous.entries@[j as int].0@);
                    assert forall|i: int| 0 <= i < n implies #[trigger] self.entries@[i] == before.entries@[i] by {}
                    assert forall|i: int| 0 <= i < orig.entries.len() implies #[trigger] self.entries@[i].0@ == orig.entries@[i].0@
                        && self.entries@[i].1@ == orig.entries@[i].1@ by {
                        assert(self.entries@[i] == before.entries@[i]);
                    }
                    assert forall|i: int| orig.entries.len() <= i < self.entries.len() implies taken_from(*previous, orig, #[trigger] self.entries@[i]) by {
                        if i < n {
                            assert(self.entries@[i] == before.entries@[i]);
                        }
                    }
                    assert forall|k: Seq<char>| #[trigger] self.has_key(k) == (before.has_key(k) || k == previous.entries@[j as int].0@) by {
                        if before.has_key(k) {
                            let i = choose|i: int| 0 <= i < before.entries.len() && #[trigger] before.entries@[i].0@ == k;
                            assert(self.entries@[i] == before.entries@[i]);
                        }
                        if self.has_key(k) {
                            let i = choose|i: int| 0 <= i < self.entries.len() && #[trigger] self.entries@[i].0@ == k;
                            if i < n {
                                assert(self.entries@[i] == before.entries@[i]);
                            }
                        }
                    }
                    assert(!orig.has_key(previous.entries@[j as int].0@));
                    assert(taken_from(*previous, orig, self.entries@[n]));
                    if orig.unique_keys() {
                        assert forall|a: int, b: int| 0 <= a < b < self.entries.len() implies self.entries@[a].0@ != self.entries@[b].0@ by {
                            assert(self.entries@[a] == before.entries@[a]);
                            if b < n {
                                assert(self.entries@[b] == before.entries@[b]);
                            }
                        }
                    }
                }
            }
            proof {
                assert forall|k: Seq<char>| #[trigger]
                    self.has_key(k) == (orig.has_key(k) || exists|p: int|
                        0 <= p < j + 1 && #[trigger] previous.entries@[p].0@ == k) by {
                    if k == previous.entries@[j as int].0@ {
                        assert(previous.entries@[j as int].0@ == k);
                    }
                    if exists|p: int| 0 <= p < j + 1 && #[trigger] previous.entries@[p].0@ == k {
                        let p = choose|p: int| 0 <= p < j + 1 && #[trigger] previous.entries@[p].0@ == k;
                        if p < j {
                            assert(previous.entries@[p].0@ == k);
                        }
                    }
                }
            }
            j += 1;
        }
        proof {
            assert forall|k: Seq<char>| #[trigger] self.has_key(k) == (orig.has_key(k) || previous.has_key(k)) by {
                if previous.has_key(k) {
                    let p = choose|p: int| 0 <= p < previous.entries.len() && #[trigger] previous.entries@[p].0@ == k;
                    assert(previous.entries@[p].0@ == k);
                }
            }
        }
    }
}

/// Entry `e` copies a field of `previous` whose name `orig` does not use.
pub open spec fn taken_from(previous: ExtraFields, orig: ExtraFields, e: (String, String)) -> bool {
    exists|p: int|
        0 <= p < previous.entries.len() && e.0@ == (#[trigger] previous.entries@[p]).0@ && e.1@
            == previous.entries@[p].1@ && !orig.has_key(previous.entries@[p].0@)
}

/// Personal data of a new game: status `backlog`, everything else empty.
pub open spec fn fresh_personal(p: PersonalData) -> bool {
    &&& p.status@ == "backlog"@
    &&& p.rating is None
    &&& !p.favorite
    &&& p.tags.len() == 0
    &&& p.notes@.len() == 0
    &&& p.description is None
    &&& p.cover is None
    &&& p.collections.len() == 0
    &&& !p.hidden
    &&& p.extra.entries.len() == 0
}

impl PersonalData {
    pub fn new() -> (r: Self)
        ensures
            fresh_personal(r),
    {
        PersonalData {
            status: String::from_str("backlog"),
            rating: None,
            favorite: false,
            tags: Vec::new(),
            notes: String::new(),
            description: None,
            cover: None,
            collections: Vec::new(),
            hidden: false,
            extra: ExtraFields::new(),
        }
    }
}

/// What a game shows as its description: a personal override, even a blank one,
/// wins over the provider's text.
pub open spec fn shown_description(g: GameData) -> Option<Seq<char>> {
    match g.personal.description {
        Some(d) => Some(d@),
        None => match g.steam {
            Some(s) => opt_str(s.description),
            None => None,
        },
    }
}

/// The cover a game shows: the personal cover wins over the provider's cover.
pub open spec fn shown_cover(g: GameData) -> Option<Seq<char>> {
    match g.personal.cover {
        Some(c) => Some(c@),
        None => match g.steam {
            Some(s) => match s.metadata {
                Some(m) => opt_str(m.cover),
                None => None,
            },
            None => None,
        },
    }
}

pub open spec fn opt_view(a: Option<&str>) -> Option<Seq<char>> {
    match a {
        Some(s) => Some(s@),
        None => None,
    }
}

impl GameData {
    pub fn new(title: &str) -> (r: Self)
        ensures
            r.title@ == title@,
            r.steam is None,
            fresh_personal(r.personal),
            r.extra.entries.len() == 0,
    {
        GameData {
            title: String::from_str(title),
            steam: None,
            personal: PersonalData::new(),
            extra: ExtraFields::new(),
        }
    }

    pub fn description(&self) -> (r: Option<&str>)
        ensures
            opt_view(r) == shown_description(*self),
    {
        match &self.personal.description {
            Some(d) => Some(d.as_str()),
            None => match &self.steam {
                Some(s) => match &s.description {
                    Some(d) => Some(d.as_str()),
                    None => None,
                },
                None => None,
            },
        }
    }

    pub fn cover(&self) -> (r: Option<&str>)
        ensures
            opt_view(r) == shown_cover(*self),
    {
        match &self.personal.cover {
            Some(c) => Some(c.as_str()),
            None => match &self.steam {
                Some(s) => match &s.metadata {
                    Some(m) => match &m.cover {
                        Some(c) => Some(c.as_str()),
                        None => None,
                    },
                    None => None,
                },
                None => None,
            },
        }
    }
}

/// Why an edit of a game was refused before anything was written.
#[derive(Debug, Clone, Copy, PartialEq, Eq, Structural)]
pub enum EditError {
    Archived,
}

/// The record an edit of personal data produces: the base record with the new personal
/// section, which keeps the base's unknown personal fields that the editor did not set.
pub open spec fn personal_edit(base: GameRevision, personal: PersonalData, r: GameRevision) -> bool {
    &&& r.schema_version == base.schema_version
    &&& r.game_id == base.game_id
    &&& r.revision_id == base.revision_id
    &&& r.parents@ == base.parents@
    &&& r.deleted == base.deleted
    &&& r.game.title@ == base.game.title@
    &&& match (r.game.steam, base.game.steam) {
        (None, None) => true,
        (Some(x), Some(y)) => steam_same(x, y),
        _ => false,
    }
    &&& extra_same(r.game.extra, base.game.extra)
    &&& extra_same(r.extra, base.extra)
    &&& personal_same(PersonalData { extra: personal.extra, ..r.game.personal }, personal)
    &&& r.game.personal.extra.entries.len() >= personal.extra.entries.len()
    &&& forall|k: Seq<char>| #[trigger] r.game.personal.extra.has_key(k) == (personal.extra.has_key(k)
        || base.game.personal.extra.has_key(k))
    &&& forall|i: int|
        0 <= i < personal.extra.entries.len() ==> #[trigger] r.game.personal.extra.entries@[i].0@
            == personal.extra.entries@[i].0@ && r.game.personal.extra.entries@[i].1@
            == personal.extra.entries@[i].1@
    &&& forall|i: int|
        personal.extra.entries.len() <= i < r.game.personal.extra.entries.len() ==> taken_from(
            base.game.personal.extra,
            personal.extra,
            #[trigger] r.game.personal.extra.entries@[i],
        )
}

impl GameRevision {
    /// An archived game must be restored before its personal data can change.
    pub fn with_personal(&self, personal: PersonalData) -> (r: Result<GameRevision, EditError>)
        ensures
            self.deleted ==> r == Err::<GameRevision, EditError>(EditError::Archived),
            !self.deleted ==> (r matches Ok(n) && personal_edit(*self, personal, n)),
    {
        if self.deleted {
            return Err(EditError::Archived);
        }
        let mut personal = personal;
        let ghost given = personal;
        personal.extra.retain_from(&self.game.personal.extra);
        let mut record = self.dup();
        record.game.personal = personal;
        Ok(record)
    }

    /// The same record, archived or restored.
    pub fn with_archived(&self, archived: bool) -> (r: GameRevision)
        ensures
            revision_same(GameRevision { deleted: self.deleted, ..r }, *self),
            r.deleted == archived,
    {
        let mut record = self.dup();
        record.deleted = archived;
        record
    }
}

/// One change that a bulk edit applies to each selected game's personal data.
#[derive(Debug, Clone)]
pub enum Change {
    Favorite(bool),
    Status(String),
    Collection(u128, bool),
    Hidden(bool),
}

/// `new` is `old` with the change applied and every other value kept.
pub open spec fn change_applied(change: Change, old: PersonalData, new: PersonalData) -> bool {
    match change {
        Change::Favorite(v) => personal_same(new, PersonalData { favorite: v, ..old }),
        Change::Status(s) => new.status@ == s@ && personal_same(PersonalData { status: old.status, ..new }, old),
        Change::Hidden(v) => personal_same(new, PersonalData { hidden: v, ..old }),
        Change::Collection(id, add) => {
            &&& personal_same(PersonalData { collections: old.collections, ..new }, old)
            &&& new.collections@ == if add {
                if old.collections@.contains(id) {
                    old.collections@
                } else {
                    old.collections@.push(id)
                }
            } else {
                old.collections@.filter(|x: u128| x != id)
            }
        },
    }
}

pub fn contains_id(v: &Vec<u128>, id: u128) -> (r: bool)
    ensures
        r == v@.contains(id),
{
    let mut i: usize = 0;
    while i < v.len()
        invariant
            i <= v.len(),
            forall|j: int| 0 <= j < i ==> v@[j] != id,
        decreases v.len() - i,
    {
        if v[i] == id {
            assert(v@[i as int] == id);
            return true;
        }
        i += 1;
    }
    false
}

pub fn without_id(v: &Vec<u128>, id: u128) -> (r: Vec<u128>)
    ensures
        r@ == v@.filter(|x: u128| x != id),
{
    let mut out: Vec<u128> = Vec::new();
    let mut i: usize = 0;
    while i < v.len()
        invariant
            i <= v.len(),
            out@ == v@.subrange(0, i as int).filter(|x: u128| x != id),
        decreases v.len() - i,
    {
        proof {
            v@.subrange(0, i as int).lemma_filter_push(v@[i as int], |x: u128| x != id);
            assert(v@.subrange(0, i as int).push(v@[i as int]) =~= v@.subrange(0, i + 1));
        }
        if v[i] != id {
            out.push(v[i]);
        }
        i += 1;
    }
    assert(v@.subrange(0, v.len() as int) =~= v@);
    out
}

impl Change {
    pub fn apply(&self, personal: &mut PersonalData)
        ensures
            change_applied(*self, *old(personal), *final(personal)),
    {
        match self {
            Change::Favorite(v) => personal.favorite = *v,
            Change::Status(s) => personal.status = s.clone(),
            Change::Hidden(v) => personal.hidden = *v,
            Change::Collection(id, add) => {
                if *add {
                    if !contains_id(&personal.collections, *id) {
                        personal.collections.push(*id);
                    }
                } else {
                    let kept = without_id(&personal.collections, *id);
                    personal.collections = kept;
                }
            },
        }
    }
}

} // verus!

verus! {

/// A change applied to personal data gives the same result from any copy of it.
pub proof fn lemma_change_applied_same(change: Change, a: PersonalData, b: PersonalData, n: PersonalData)
    requires
        change_applied(change, a, n),
        personal_same(a, b),
    ensures
        change_applied(change, b, n),
{
}

/// Archiving and then restoring a game gives back a record with the same content: an
/// archive is reversible and never loses data.
pub proof fn law_archive_is_reversible(r: GameRevision, archived: GameRevision, restored: GameRevision)
    requires
        !r.deleted,
        revision_same(GameRevision { deleted: r.deleted, ..archived }, r),
        archived.deleted,
        revision_same(GameRevision { deleted: archived.deleted, ..restored }, archived),
        !restored.deleted,
    ensures
        revision_same(restored, r),
{
}

/// Applying a bulk change twice gives the same personal data as applying it once.
pub proof fn law_change_is_idempotent(change: Change, p0: PersonalData, p1: PersonalData, p2: PersonalData)
    requires
        change_applied(change, p0, p1),
        change_applied(change, p1, p2),
    ensures
        personal_same(p2, p1),
{
    match change {
        Change::Collection(id, add) => {
            if add {
                if p0.collections@.contains(id) {
                } else {
                    assert(p1.collections@[p0.collections@.len() as int] == id);
                    assert(p1.collections@.contains(id));
                }
            } else {
                let pred = |x: u128| x != id;
                let f = p0.collections@.filter(pred);
                lemma_filter_all(p0.collections@, pred);
                assert(f.filter(pred) == f);
            }
        },
        _ => {},
    }
}

proof fn lemma_filter_all(s: Seq<u128>, pred: spec_fn(u128) -> bool)
    ensures
        s.filter(pred).filter(pred) == s.filter(pred),
    decreases s.len(),
{
    reveal(Seq::filter);
    if s.len() > 0 {
        lemma_filter_all(s.drop_last(), pred);
        let f = s.drop_last().filter(pred);
        if pred(s.last()) {
            f.lemma_filter_push(s.last(), pred);
        }
    }
}

} // verus!

verus! {

/// A personal edit carries every value the user submitted, whatever the base held: status,
/// rating, favorite, tags, notes, description and cover overrides, collections and the
/// hidden flag; the title, provider data and archived state stay those of the base, and
/// every submitted extension field is kept.
pub proof fn law_personal_edit_carries_the_submitted_values(base: GameRevision, personal: PersonalData, r: GameRevision)
    requires
        personal_edit(base, personal, r),
    ensures
        r.game.personal.status@ == personal.status@,
        r.game.personal.rating == personal.rating,
        r.game.personal.favorite == personal.favorite,
        strs(r.game.personal.tags@) == strs(personal.tags@),
        r.game.personal.notes@ == personal.notes@,
        opt_str(r.game.personal.description) == opt_str(personal.description),
        opt_str(r.game.personal.cover) == opt_str(personal.cover),
        r.game.personal.collections@ == personal.collections@,
        r.game.personal.hidden == personal.hidden,
        forall|k: Seq<char>| personal.extra.has_key(k) ==> #[trigger] r.game.personal.extra.has_key(k),
        r.game.title@ == base.game.title@,
        r.deleted == base.deleted,
        r.game_id == base.game_id,
{
}

} // verus!
