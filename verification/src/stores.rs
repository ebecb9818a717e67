//! Game and library stores: every edit is checked against the reviewed heads and turned
//! into the child revision to publish before anything is written.
use vstd::prelude::*;
use vstd::string::*;

use crate::records::{
    extra_same, game_same, game_violation, metadata_same, opt_str, personal_edit, personal_same,
    revision_same,
    ExtraFields, GameData, GameRevision, PersonalData, RecordError, SteamData, SteamMetadata,
    SCHEMA_VERSION,
};
use crate::revisions::{heads_match, valid_choice, HistoryError, RevisionSnapshot};
use crate::revisions::{has_id, is_valid_choice, RevisionIssue};
use crate::steam::OwnedGame;
use crate::library::{
    collection_removed, definitions_saved, first_collection_removed, first_status_removed,
    has_status_key, library_same, library_violation, merge_definitions, starter_statuses,
    status_removed,
    LibraryDefinitions, LibraryError, LibraryRevision,
};
use crate::records::dup_ids;

verus! {

/// `uuid::Uuid::new_v4`: a random UUID whose version is 4 and whose variant is RFC 4122.
/// Nothing else is stated of the value.
#[verifier::external_body]
pub(crate) fn random_id() -> (r: u128)
    ensures
        (r >> 76u128) & 0xfu128 == 4,
        (r >> 62u128) & 0x3u128 == 2,
{
    uuid::Uuid::new_v4().as_u128()
}

/// Why a store refuses to open or to make an edit.
#[derive(Debug, Clone, PartialEq, Eq)]
pub enum StoreError {
    /// The library folders are unavailable or initialization is incomplete.
    Unavailable,
    /// The history needs attention or changed since it was reviewed.
    History(HistoryError),
    /// A resolution must choose one of at least two conflicting heads.
    ChooseConflict,
    /// An archived game must be restored before it is edited.
    Archived,
    /// The revision to write breaks a rule of game records.
    InvalidRecord(RecordError),
    /// The library revision to write breaks a rule, or the library refuses the change.
    Library(crate::library::LibraryError),
    /// The game is not linked to this Steam app.
    SteamMismatch,
    /// The library definitions have no single current revision to work from.
    NoCurrentLibrary,
    /// The Steam account does not match this library.
    AccountMismatch,
    /// Library files need attention before importing.
    FilesNeedAttention,
    /// Unreadable game files could hold this game; a duplicate is not created.
    UnreadableGames,
    /// The Steam game has conflicting or incomplete versions.
    SteamConflict,
    /// Several games use this Steam App ID; the duplicate must be resolved first.
    DuplicateSteamGame,
}

/// `n` is `base` with a new revision ID and parents, and nothing else changed.
pub open spec fn game_child(base: GameRevision, id: u128, parents: Seq<u128>, n: GameRevision) -> bool {
    &&& n.revision_id == id
    &&& n.parents@ == parents
    &&& revision_same(GameRevision { revision_id: base.revision_id, parents: base.parents, ..n }, base)
}

/// Gives `base` a new revision ID and parents, and checks the result can be written.
pub fn child_record(base: &GameRevision, id: u128, parents: &Vec<u128>) -> (r: Result<GameRevision, RecordError>)
    ensures
        r matches Ok(n) ==> game_child(*base, id, parents@, n) && game_violation(n) is None,
        r matches Err(e) ==> exists|n: GameRevision| game_child(*base, id, parents@, n) && game_violation(n) == Some(e),
{
    let mut record = base.dup();
    record.revision_id = id;
    record.parents = dup_ids(parents);
    match record.validate() {
        Ok(()) => Ok(record),
        Err(e) => Err(e),
    }
}

/// The revision with ID `id` in a snapshot.
fn revision_with<'a>(snapshot: &'a RevisionSnapshot<GameRevision>, id: u128) -> (r: Option<&'a GameRevision>)
    requires
        snapshot.wf(),
    ensures
        r matches Some(x) ==> x.revision_id == id && snapshot.revisions@.contains(*x),
        r is None ==> !has_id(snapshot.revisions@, id),
{
    match snapshot.find(id) {
        Some(j) => {
            assert(snapshot.revisions@.contains(snapshot.revisions@[j as int]));
            Some(&snapshot.revisions[j])
        },
        None => None,
    }
}

/// The revision of a snapshot that has ID `id`.
pub open spec fn revision_of(revisions: Seq<GameRevision>, id: u128, x: GameRevision) -> bool {
    revisions.contains(x) && x.revision_id == id
}

/// The edit may go ahead: nothing needs attention and the heads are the reviewed ones.
pub open spec fn accepted<T>(snapshot: RevisionSnapshot<T>, expected: Seq<u128>) -> bool {
    snapshot.issues@.len() == 0 && heads_match(snapshot.heads@, expected)
}

/// The refusal of a history that does not accept an edit based on `expected`.
pub open spec fn history_refusal<T>(snapshot: RevisionSnapshot<T>, expected: Seq<u128>) -> StoreError {
    if snapshot.issues@.len() > 0 {
        StoreError::History(HistoryError::NeedsAttention)
    } else {
        StoreError::History(HistoryError::Changed)
    }
}

/// The game records of a library: `games/` holds each current record, `history/` every
/// revision. This store neither creates a library manifest nor scans other game IDs.
pub struct RecordStore {
    root: String,
}

impl RecordStore {
    pub closed spec fn spec_root(&self) -> Seq<char> {
        self.root@
    }

    /// The library folder this store works in.
    pub fn root(&self) -> (r: &str)
        ensures
            r@ == self.spec_root(),
    {
        self.root.as_str()
    }

    /// Opens a library whose `games/` and `history/` folders exist: asks the disk about
    /// `folder_at(root, "games")` and `folder_at(root, "history")` and decides with
    /// `open_with`. Which folders exist is the disk's answer.
    pub fn open(root: &str) -> (r: Result<RecordStore, StoreError>)
        ensures
            r matches Ok(s) ==> s.spec_root() == root@,
            r matches Err(e) ==> e == StoreError::Unavailable,
    {
        let games = folder_exists(root, "games");
        let history = folder_exists(root, "history");
        Self::open_with(root, games, history)
    }

    /// Opens a library given whether its `games/` and `history/` folders exist.
    pub fn open_with(root: &str, games: bool, history: bool) -> (r: Result<RecordStore, StoreError>)
        ensures
            (r is Ok) == (games && history),
            r matches Ok(s) ==> s.spec_root() == root@,
            r matches Err(e) ==> e == StoreError::Unavailable,
    {
        if games && history {
            Ok(RecordStore { root: root.to_owned() })
        } else {
            Err(StoreError::Unavailable)
        }
    }

    /// Archives or restores the reviewed revision through a child revision; files are
    /// never removed to delete a game.
    pub fn set_archived(&self, snapshot: &RevisionSnapshot<GameRevision>, expected: u128, archived: bool) -> (r: Result<GameRevision, StoreError>)
        requires
            snapshot.wf(),
        ensures
            !accepted(*snapshot, seq![expected]) ==> r == Err::<GameRevision, StoreError>(history_refusal(*snapshot, seq![expected])),
            accepted(*snapshot, seq![expected]) && !has_id(snapshot.revisions@, expected) ==> r == Err::<GameRevision, StoreError>(StoreError::History(HistoryError::Changed)),
            r matches Ok(n) ==> archived_child(*snapshot, expected, archived, n)
                && game_violation(n) is None && (n.revision_id >> 76u128) & 0xfu128 == 4,
            r matches Err(StoreError::InvalidRecord(e)) ==> exists|b: GameRevision, n: GameRevision|
                #![trigger revision_of(snapshot.revisions@, expected, b), game_violation(n)]
                revision_of(snapshot.revisions@, expected, b)
                && game_child(GameRevision { deleted: archived, ..b }, n.revision_id, snapshot.heads@, n) && game_violation(n) == Some(e) && (n.revision_id >> 76u128) & 0xfu128 == 4,
            accepted(*snapshot, seq![expected]) && has_id(snapshot.revisions@, expected) ==> (r matches Ok(_) || r matches Err(StoreError::InvalidRecord(_))),
    {
        let expected_heads = vec![expected];
        assert(expected_heads@ == seq![expected]);
        match snapshot.check_heads(&expected_heads) {
            Err(e) => {
                return Err(StoreError::History(e));
            },
            Ok(()) => {},
        }
        let base = match revision_with(snapshot, expected) {
            Some(b) => b,
            None => {
                return Err(StoreError::History(HistoryError::Changed));
            },
        };
        let changed = base.with_archived(archived);
        let id = random_id();
        match child_record(&changed, id, &snapshot.heads) {
            Ok(n) => {
                assert(revision_of(snapshot.revisions@, expected, *base));
                assert(archived_child(*snapshot, expected, archived, n));
                Ok(n)
            },
            Err(e) => {
                assert(revision_of(snapshot.revisions@, expected, *base));
                Err(StoreError::InvalidRecord(e))
            },
        }
    }
}

/// `std::path::Path::is_dir`: whether a directory is at `path`. The answer depends on
/// the disk, so nothing is stated of it.
#[verifier::external_body]
fn is_dir(path: &str) -> (r: bool) {
    std::path::Path::new(path).is_dir()
}

/// The path of folder `name` under `root`.
pub open spec fn folder_at(root: Seq<char>, name: Seq<char>) -> Seq<char> {
    root + "/"@ + name
}

/// The path of folder `name` under `root`.
pub fn folder_path(root: &str, name: &str) -> (p: String)
    ensures
        p@ == folder_at(root@, name@),
{
    let mut path = root.to_owned();
    path.append("/");
    path.append(name);
    path
}

/// Whether `name` is a directory under `root`: the path asked about is
/// `folder_at(root, name)`. The answer comes from the disk, so nothing is stated of it.
fn folder_exists(root: &str, name: &str) -> (r: bool) {
    let path = folder_path(root, name);
    is_dir(path.as_str())
}

} // verus!

verus! {

/// What saving `personal` over revision `expected` of a game gives: the refusal of a
/// history that changed or needs attention, of an archived game or of an invalid record,
/// or the child of every head that carries the edit.
pub open spec fn personal_outcome(snapshot: RevisionSnapshot<GameRevision>, expected: u128, personal: PersonalData, r: Result<GameRevision, StoreError>) -> bool {
    &&& !accepted(snapshot, seq![expected]) ==> r == Err::<GameRevision, StoreError>(history_refusal(snapshot, seq![expected]))
    &&& accepted(snapshot, seq![expected]) && !has_id(snapshot.revisions@, expected) ==> r == Err::<GameRevision, StoreError>(StoreError::History(HistoryError::Changed))
    &&& accepted(snapshot, seq![expected]) ==> forall|b: GameRevision| #[trigger] revision_of(snapshot.revisions@, expected, b)
        ==> ((r == Err::<GameRevision, StoreError>(StoreError::Archived)) <==> b.deleted)
    &&& r matches Ok(n) ==> exists|b: GameRevision| #[trigger] revision_of(snapshot.revisions@, expected, b) && !b.deleted
        && personal_edit(b, personal, GameRevision { revision_id: b.revision_id, parents: b.parents, ..n })
        && n.parents@ == snapshot.heads@ && game_violation(n) is None && (n.revision_id >> 76u128) & 0xfu128 == 4
    &&& r matches Err(StoreError::InvalidRecord(e)) ==> exists|b: GameRevision, n: GameRevision|
        #![trigger revision_of(snapshot.revisions@, expected, b), game_violation(n)]
        revision_of(snapshot.revisions@, expected, b) && !b.deleted
        && personal_edit(b, personal, GameRevision { revision_id: b.revision_id, parents: b.parents, ..n })
        && n.parents@ == snapshot.heads@ && game_violation(n) == Some(e) && (n.revision_id >> 76u128) & 0xfu128 == 4
    &&& accepted(snapshot, seq![expected]) && has_id(snapshot.revisions@, expected) ==> (r matches Ok(_) || r matches Err(StoreError::Archived) || r matches Err(StoreError::InvalidRecord(_)))
}

/// A valid personal edit of a live game is saved: when the reviewed heads are current,
/// the reviewed revision is live and every child that carries the edit is a valid
/// record, the edit gives that child and no refusal.
pub proof fn law_valid_edit_is_saved(snapshot: RevisionSnapshot<GameRevision>, expected: u128, personal: PersonalData, b: GameRevision, r: Result<GameRevision, StoreError>)
    requires
        snapshot.wf(),
        accepted(snapshot, seq![expected]),
        revision_of(snapshot.revisions@, expected, b),
        !b.deleted,
        forall|n: GameRevision| #![trigger game_violation(n)]
            personal_edit(b, personal, GameRevision { revision_id: b.revision_id, parents: b.parents, ..n })
            && n.parents@ == snapshot.heads@ && (n.revision_id >> 76u128) & 0xfu128 == 4 ==> game_violation(n) is None,
        personal_outcome(snapshot, expected, personal, r),
    ensures
        r matches Ok(n) && n.parents@ == snapshot.heads@
            && personal_edit(b, personal, GameRevision { revision_id: b.revision_id, parents: b.parents, ..n }),
{
    assert(has_id(snapshot.revisions@, expected));
    match r {
        Ok(n) => {
            let b2 = choose|b2: GameRevision| #[trigger] revision_of(snapshot.revisions@, expected, b2) && !b2.deleted
                && personal_edit(b2, personal, GameRevision { revision_id: b2.revision_id, parents: b2.parents, ..n })
                && n.parents@ == snapshot.heads@ && game_violation(n) is None && (n.revision_id >> 76u128) & 0xfu128 == 4;
            lemma_one_revision(snapshot, expected, b2, b);
        },
        Err(e) => {
            assert(!(r == Err::<GameRevision, StoreError>(StoreError::Archived)));
            if r matches Err(StoreError::InvalidRecord(_)) {
                let (b2, n) = choose|b2: GameRevision, n: GameRevision|
                    revision_of(snapshot.revisions@, expected, b2) && !b2.deleted
                    && personal_edit(b2, personal, GameRevision { revision_id: b2.revision_id, parents: b2.parents, ..n })
                    && n.parents@ == snapshot.heads@ && game_violation(n) is Some && (n.revision_id >> 76u128) & 0xfu128 == 4;
                lemma_one_revision(snapshot, expected, b2, b);
            }
        },
    }
}

/// Metadata before any Steam stage completed.
pub open spec fn fresh_metadata(m: SteamMetadata) -> bool {
    &&& m.genres.len() == 0
    &&& m.release_year is None
    &&& m.review_label is None
    &&& m.review_percent is None
    &&& m.cover is None
    &&& !m.details_complete
    &&& !m.reviews_complete
    &&& !m.cover_complete
}

impl SteamMetadata {
    /// Metadata before any stage completed.
    pub fn new() -> (r: Self)
        ensures
            fresh_metadata(r),
    {
        SteamMetadata {
            genres: Vec::new(),
            release_year: None,
            review_label: None,
            review_percent: None,
            cover: None,
            details_complete: false,
            reviews_complete: false,
            cover_complete: false,
        }
    }
}

/// One update of a game's Steam section.
#[derive(Debug)]
pub enum SteamChange {
    /// The account owns the game with this playtime.
    Owned { playtime_minutes: u32 },
    /// The store page was read: description, genres and release year.
    Details { description: String, genres: Vec<String>, release_year: Option<String> },
    /// The review summary was read; the percentage is absent when there are no reviews.
    Reviews { label: Option<String>, percent: Option<u8> },
    /// A cover was saved at this path inside the library.
    Cover { path: String },
}

/// The metadata a stage starts from: the present metadata, or fresh metadata.
pub open spec fn base_metadata(old: SteamData, m: SteamMetadata) -> bool {
    match old.metadata {
        Some(x) => metadata_same(m, x),
        None => fresh_metadata(m),
    }
}

/// `new` is `old` after `change`.
pub open spec fn steam_changed(change: SteamChange, old: SteamData, new: SteamData) -> bool {
    &&& new.app_id == old.app_id
    &&& extra_same(new.extra, old.extra)
    &&& match change {
        SteamChange::Owned { playtime_minutes } => {
            &&& new.playtime_minutes == playtime_minutes
            &&& new.owned
            &&& opt_str(new.description) == opt_str(old.description)
            &&& match (new.metadata, old.metadata) {
                (None, None) => true,
                (Some(x), Some(y)) => metadata_same(x, y),
                _ => false,
            }
        },
        SteamChange::Details { description, genres, release_year } => {
            &&& new.playtime_minutes == old.playtime_minutes
            &&& new.owned == old.owned
            &&& opt_str(new.description) == Some(description@)
            &&& new.metadata matches Some(m) && exists|b: SteamMetadata| #[trigger] base_metadata(old, b)
                && metadata_same(m, SteamMetadata { genres: genres, release_year: release_year, details_complete: true, ..b })
        },
        SteamChange::Reviews { label, percent } => {
            &&& new.playtime_minutes == old.playtime_minutes
            &&& new.owned == old.owned
            &&& opt_str(new.description) == opt_str(old.description)
            &&& new.metadata matches Some(m) && exists|b: SteamMetadata| #[trigger] base_metadata(old, b)
                && metadata_same(m, SteamMetadata { review_label: label, review_percent: percent, reviews_complete: true, ..b })
        },
        SteamChange::Cover { path } => {
            &&& new.playtime_minutes == old.playtime_minutes
            &&& new.owned == old.owned
            &&& opt_str(new.description) == opt_str(old.description)
            &&& new.metadata matches Some(m) && exists|b: SteamMetadata| #[trigger] base_metadata(old, b)
                && metadata_same(m, SteamMetadata { cover: Some(path), cover_complete: true, ..b })
        },
    }
}

/// `n` is the child of every head of `snapshot`, which is the single current revision,
/// with its Steam section for `app_id` changed by `change`, and a fresh revision ID.
pub open spec fn steam_updated(snapshot: RevisionSnapshot<GameRevision>, app_id: u32, change: SteamChange, n: GameRevision) -> bool {
    &&& snapshot.heads@.len() == 1
    &&& exists|b: GameRevision, s: SteamData|
        #![trigger revision_of(snapshot.revisions@, snapshot.heads@[0], b), steam_changed(change, s, n.game.steam->0)]
        revision_of(snapshot.revisions@, snapshot.heads@[0], b) && b.game.steam == Some(s) && s.app_id == app_id
        && n.game.steam is Some && steam_changed(change, s, n.game.steam->0)
        && revision_same(GameRevision { revision_id: b.revision_id, parents: b.parents, game: GameData { steam: b.game.steam, ..n.game }, ..n }, b)
    &&& n.parents@ == snapshot.heads@
    &&& (n.revision_id >> 76u128) & 0xfu128 == 4
}

impl SteamChange {
    /// Applies this change to a game's Steam section.
    pub fn apply(self, steam: &SteamData) -> (r: SteamData)
        ensures
            steam_changed(self, *steam, r),
    {
        let mut out = steam.dup();
        let ghost change = self;
        match self {
            SteamChange::Owned { playtime_minutes } => {
                out.playtime_minutes = playtime_minutes;
                out.owned = true;
            },
            SteamChange::Details { description, genres, release_year } => {
                let mut m = match &steam.metadata {
                    Some(m) => m.dup(),
                    None => SteamMetadata::new(),
                };
                let ghost b = m;
                assert(base_metadata(*steam, b));
                out.description = Some(description);
                m.genres = genres;
                m.release_year = release_year;
                m.details_complete = true;
                out.metadata = Some(m);
            },
            SteamChange::Reviews { label, percent } => {
                let mut m = match &steam.metadata {
                    Some(m) => m.dup(),
                    None => SteamMetadata::new(),
                };
                let ghost b = m;
                assert(base_metadata(*steam, b));
                m.review_label = label;
                m.review_percent = percent;
                m.reviews_complete = true;
                out.metadata = Some(m);
            },
            SteamChange::Cover { path } => {
                let mut m = match &steam.metadata {
                    Some(m) => m.dup(),
                    None => SteamMetadata::new(),
                };
                let ghost b = m;
                assert(base_metadata(*steam, b));
                m.cover = Some(path);
                m.cover_complete = true;
                out.metadata = Some(m);
            },
        }
        out
    }
}

/// A first revision: schema 1, no parents, not archived, the given game and no unknown fields.
pub open spec fn first_revision(game_id: u128, revision_id: u128, game: GameData, n: GameRevision) -> bool {
    &&& n.schema_version == SCHEMA_VERSION
    &&& n.game_id == game_id
    &&& n.revision_id == revision_id
    &&& n.parents.len() == 0
    &&& !n.deleted
    &&& game_same(n.game, game)
    &&& n.extra.entries.len() == 0
}

/// The first revision of a game, checked for writing.
pub fn first_record(game_id: u128, revision_id: u128, game: GameData) -> (r: Result<GameRevision, RecordError>)
    ensures
        r matches Ok(n) ==> first_revision(game_id, revision_id, game, n) && game_violation(n) is None,
        r matches Err(e) ==> exists|n: GameRevision| #[trigger] first_revision(game_id, revision_id, game, n) && game_violation(n) == Some(e),
{
    let ghost given = game;
    let record = GameRevision {
        schema_version: SCHEMA_VERSION,
        game_id,
        revision_id,
        parents: Vec::new(),
        deleted: false,
        game,
        extra: ExtraFields::new(),
    };
    assert(game_same(record.game, given));
    match record.validate() {
        Ok(()) => Ok(record),
        Err(e) => {
            assert(first_revision(game_id, revision_id, given, record));
            Err(e)
        },
    }
}

impl RecordStore {
    /// A new game with fresh random identities.
    pub fn create(&self, game: GameData) -> (r: Result<GameRevision, StoreError>)
        ensures
            r matches Ok(n) ==> first_revision(n.game_id, n.revision_id, game, n) && game_violation(n) is None
                && (n.game_id >> 76u128) & 0xfu128 == 4 && (n.revision_id >> 76u128) & 0xfu128 == 4,
            r matches Err(e) ==> e matches StoreError::InvalidRecord(v) && exists|n: GameRevision| #[trigger] first_revision(n.game_id, n.revision_id, game, n)
                && game_violation(n) == Some(v) && (n.game_id >> 76u128) & 0xfu128 == 4 && (n.revision_id >> 76u128) & 0xfu128 == 4,
    {
        let game_id = random_id();
        let revision_id = random_id();
        match first_record(game_id, revision_id, game) {
            Ok(n) => Ok(n),
            Err(e) => Err(StoreError::InvalidRecord(e)),
        }
    }

    /// A new game whose identity is derived elsewhere, so that two devices importing the
    /// same game agree on it.
    pub fn create_identified(&self, game_id: u128, game: GameData) -> (r: Result<GameRevision, StoreError>)
        ensures
            r matches Ok(n) ==> first_revision(game_id, n.revision_id, game, n) && game_violation(n) is None
                && (n.revision_id >> 76u128) & 0xfu128 == 4,
            r matches Err(e) ==> e matches StoreError::InvalidRecord(v) && exists|n: GameRevision| #[trigger] first_revision(game_id, n.revision_id, game, n)
                && game_violation(n) == Some(v) && (n.revision_id >> 76u128) & 0xfu128 == 4,
    {
        let revision_id = random_id();
        match first_record(game_id, revision_id, game) {
            Ok(n) => Ok(n),
            Err(e) => Err(StoreError::InvalidRecord(e)),
        }
    }

    /// Saves new personal data over the reviewed revision. Unknown personal fields of the
    /// revision stay even where the editor did not know them; an archived game must be
    /// restored first.
    pub fn edit_personal(&self, snapshot: &RevisionSnapshot<GameRevision>, expected: u128, personal: PersonalData) -> (r: Result<GameRevision, StoreError>)
        requires
            snapshot.wf(),
        ensures
            personal_outcome(*snapshot, expected, personal, r),
    {
        let expected_heads = vec![expected];
        assert(expected_heads@ == seq![expected]);
        match snapshot.check_heads(&expected_heads) {
            Err(e) => {
                return Err(StoreError::History(e));
            },
            Ok(()) => {},
        }
        let base = match revision_with(snapshot, expected) {
            Some(b) => b,
            None => {
                return Err(StoreError::History(HistoryError::Changed));
            },
        };
        proof {
            assert(revision_of(snapshot.revisions@, expected, *base));
            assert forall|b: GameRevision| #[trigger] revision_of(snapshot.revisions@, expected, b) implies b == *base by {
                lemma_one_revision(*snapshot, expected, b, *base);
            }
        }
        let edited = match base.with_personal(personal) {
            Ok(e) => e,
            Err(_) => {
                return Err(StoreError::Archived);
            },
        };
        let id = random_id();
        match child_record(&edited, id, &snapshot.heads) {
            Ok(n) => {
                proof {
                    lemma_personal_edit_same(*base, personal, edited, n);
                }
                Ok(n)
            },
            Err(e) => {
                proof {
                    let n = choose|n: GameRevision| game_child(edited, id, snapshot.heads@, n) && game_violation(n) == Some(e);
                    lemma_personal_edit_same(*base, personal, edited, n);
                }
                Err(StoreError::InvalidRecord(e))
            },
        }
    }

    /// Keeps one branch and acknowledges every head the user reviewed. The branch not
    /// chosen stays in history; a head that arrived since then refuses the resolution.
    pub fn resolve(&self, snapshot: &RevisionSnapshot<GameRevision>, expected: &Vec<u128>, chosen: u128) -> (r: Result<GameRevision, StoreError>)
        requires
            snapshot.wf(),
        ensures
            !valid_choice(expected@, chosen) ==> r == Err::<GameRevision, StoreError>(StoreError::ChooseConflict),
            valid_choice(expected@, chosen) && !accepted(*snapshot, expected@) ==> r == Err::<GameRevision, StoreError>(history_refusal(*snapshot, expected@)),
            valid_choice(expected@, chosen) && accepted(*snapshot, expected@) && !has_id(snapshot.revisions@, chosen) ==> r == Err::<GameRevision, StoreError>(StoreError::History(HistoryError::Changed)),
            r matches Ok(n) ==> exists|b: GameRevision| #[trigger] revision_of(snapshot.revisions@, chosen, b)
                && game_child(b, n.revision_id, snapshot.heads@, n) && game_violation(n) is None && (n.revision_id >> 76u128) & 0xfu128 == 4,
            r matches Err(StoreError::InvalidRecord(e)) ==> exists|b: GameRevision, n: GameRevision|
                #![trigger revision_of(snapshot.revisions@, chosen, b), game_violation(n)]
                revision_of(snapshot.revisions@, chosen, b) && game_child(b, n.revision_id, snapshot.heads@, n) && game_violation(n) == Some(e) && (n.revision_id >> 76u128) & 0xfu128 == 4,
            valid_choice(expected@, chosen) && accepted(*snapshot, expected@) && has_id(snapshot.revisions@, chosen) ==> (r matches Ok(_) || r matches Err(StoreError::InvalidRecord(_))),
    {
        if !is_valid_choice(expected, chosen) {
            return Err(StoreError::ChooseConflict);
        }
        match snapshot.check_heads(expected) {
            Err(e) => {
                return Err(StoreError::History(e));
            },
            Ok(()) => {},
        }
        let base = match revision_with(snapshot, chosen) {
            Some(b) => b,
            None => {
                return Err(StoreError::History(HistoryError::Changed));
            },
        };
        assert(revision_of(snapshot.revisions@, chosen, *base));
        let id = random_id();
        match child_record(base, id, &snapshot.heads) {
            Ok(n) => Ok(n),
            Err(e) => Err(StoreError::InvalidRecord(e)),
        }
    }

    /// Updates the Steam section of the current revision of a game through a child revision.
    pub fn update_steam(&self, snapshot: &RevisionSnapshot<GameRevision>, app_id: u32, change: SteamChange) -> (r: Result<GameRevision, StoreError>)
        requires
            snapshot.wf(),
        ensures
            snapshot.issues@.len() > 0 ==> r == Err::<GameRevision, StoreError>(StoreError::History(HistoryError::NeedsAttention)),
            snapshot.issues@.len() == 0 && !(snapshot.heads@.len() == 1 && has_id(snapshot.revisions@, snapshot.heads@[0]))
                ==> r == Err::<GameRevision, StoreError>(StoreError::History(HistoryError::Changed)),
            r matches Ok(n) ==> steam_updated(*snapshot, app_id, change, n) && game_violation(n) is None,
            r matches Err(StoreError::SteamMismatch) ==> snapshot.heads@.len() == 1 && exists|b: GameRevision| #[trigger] revision_of(snapshot.revisions@, snapshot.heads@[0], b)
                && !(b.game.steam matches Some(s) && s.app_id == app_id),
            r matches Err(e) ==> (e is History || e is SteamMismatch || e is InvalidRecord),
            has_current(*snapshot) ==> (r matches Ok(_) || r matches Err(StoreError::SteamMismatch) || r matches Err(StoreError::InvalidRecord(_))),
            has_current(*snapshot) ==> forall|b: GameRevision| #[trigger] revision_of(snapshot.revisions@, snapshot.heads@[0], b)
                && !(b.game.steam matches Some(s) && s.app_id == app_id) ==> r == Err::<GameRevision, StoreError>(StoreError::SteamMismatch),
            r matches Err(StoreError::InvalidRecord(e)) ==> exists|n: GameRevision| #![trigger game_violation(n)]
                steam_updated(*snapshot, app_id, change, n) && game_violation(n) == Some(e),
    {
        if snapshot.issues.len() > 0 {
            return Err(StoreError::History(HistoryError::NeedsAttention));
        }
        let current = match snapshot.current() {
            Some(c) => c,
            None => {
                return Err(StoreError::History(HistoryError::Changed));
            },
        };
        assert(revision_of(snapshot.revisions@, snapshot.heads@[0], *current));
        proof {
            assert forall|b: GameRevision| #[trigger] revision_of(snapshot.revisions@, snapshot.heads@[0], b) implies b == *current by {
                lemma_one_revision(*snapshot, snapshot.heads@[0], b, *current);
            }
        }
        let steam = match &current.game.steam {
            Some(s) => {
                if s.app_id != app_id {
                    return Err(StoreError::SteamMismatch);
                }
                s
            },
            None => {
                return Err(StoreError::SteamMismatch);
            },
        };
        let ghost given = change;
        let updated = change.apply(steam);
        let mut record = current.dup();
        record.game.steam = Some(updated);
        let id = random_id();
        match child_record(&record, id, &snapshot.heads) {
            Ok(n) => {
                proof {
                    lemma_steam_changed_same(given, *steam, updated, n.game.steam->0);
                    assert(steam_changed(given, *steam, n.game.steam->0));
                    let g = GameData { steam: current.game.steam, ..n.game };
                    assert(game_same(g, current.game));
                    assert(revision_same(GameRevision { revision_id: current.revision_id, parents: current.parents, game: g, ..n }, *current));
                }
                Ok(n)
            },
            Err(e) => {
                proof {
                    let n = choose|n: GameRevision| game_child(record, id, snapshot.heads@, n) && game_violation(n) == Some(e);
                    lemma_steam_changed_same(given, *steam, updated, n.game.steam->0);
                    assert(steam_changed(given, *steam, n.game.steam->0));
                    let g = GameData { steam: current.game.steam, ..n.game };
                    assert(game_same(g, current.game));
                    assert(revision_same(GameRevision { revision_id: current.revision_id, parents: current.parents, game: g, ..n }, *current));
                    assert(steam_updated(*snapshot, app_id, given, n));
                }
                Err(StoreError::InvalidRecord(e))
            },
        }
    }
}

/// `n` is the child of every head that carries revision `expected` of the snapshot with
/// its archived flag set to `archived`.
pub open spec fn archived_child(snapshot: RevisionSnapshot<GameRevision>, expected: u128, archived: bool, n: GameRevision) -> bool {
    exists|b: GameRevision| #[trigger] revision_of(snapshot.revisions@, expected, b)
        && game_child(GameRevision { deleted: archived, ..b }, n.revision_id, snapshot.heads@, n)
}

/// Archiving a live revision `f` and then restoring the archived revision `a` gives back
/// the game of `f`: `a` is archived with the same game, the restored `r` is live again with
/// the same game and is a child of the heads it was saved over, and while `a` is the
/// reviewed revision no personal edit of it is accepted.
pub proof fn law_archive_then_restore(
    before: RevisionSnapshot<GameRevision>,
    f: GameRevision,
    a: GameRevision,
    after: RevisionSnapshot<GameRevision>,
    r: GameRevision,
    personal: PersonalData,
    edit: Result<GameRevision, StoreError>,
)
    requires
        before.wf(),
        after.wf(),
        revision_of(before.revisions@, f.revision_id, f),
        !f.deleted,
        archived_child(before, f.revision_id, true, a),
        revision_of(after.revisions@, a.revision_id, a),
        archived_child(after, a.revision_id, false, r),
        personal_outcome(after, a.revision_id, personal, edit),
    ensures
        a.deleted,
        game_same(a.game, f.game),
        !r.deleted,
        game_same(r.game, f.game),
        r.parents@ == after.heads@,
        edit is Err,
{
    let b1 = choose|b: GameRevision| #[trigger] revision_of(before.revisions@, f.revision_id, b)
        && game_child(GameRevision { deleted: true, ..b }, a.revision_id, before.heads@, a);
    lemma_one_revision(before, f.revision_id, b1, f);
    let b2 = choose|b: GameRevision| #[trigger] revision_of(after.revisions@, a.revision_id, b)
        && game_child(GameRevision { deleted: false, ..b }, r.revision_id, after.heads@, r);
    lemma_one_revision(after, a.revision_id, b2, a);
    match edit {
        Ok(n) => {
            let b3 = choose|b: GameRevision| #[trigger] revision_of(after.revisions@, a.revision_id, b) && !b.deleted
                && personal_edit(b, personal, GameRevision { revision_id: b.revision_id, parents: b.parents, ..n })
                && n.parents@ == after.heads@ && game_violation(n) is None && (n.revision_id >> 76u128) & 0xfu128 == 4;
            lemma_one_revision(after, a.revision_id, b3, a);
        },
        Err(_) => {},
    }
}

/// Within a snapshot whose IDs are increasing, one revision has a given ID.
proof fn lemma_one_revision(snapshot: RevisionSnapshot<GameRevision>, id: u128, a: GameRevision, b: GameRevision)
    requires
        snapshot.wf(),
        revision_of(snapshot.revisions@, id, a),
        revision_of(snapshot.revisions@, id, b),
    ensures
        a == b,
{
    let recs = snapshot.revisions@;
    let i = choose|i: int| 0 <= i < recs.len() && recs[i] == a;
    let j = choose|j: int| 0 <= j < recs.len() && recs[j] == b;
    let ids = crate::revisions::ids_of(recs);
    if i < j {
        assert(ids[i] < ids[j]);
    } else if j < i {
        assert(ids[j] < ids[i]);
    }
}

} // verus!

verus! {

/// Extension fields with the same content have the same entries, entry by entry.
proof fn lemma_extra_same_entries(a: ExtraFields, b: ExtraFields)
    requires
        extra_same(a, b),
    ensures
        a.entries.len() == b.entries.len(),
        forall|i: int| 0 <= i < a.entries.len() ==> #[trigger] a.entries@[i].0@ == b.entries@[i].0@ && a.entries@[i].1@ == b.entries@[i].1@,
        forall|k: Seq<char>| #[trigger] a.has_key(k) == b.has_key(k),
{
    let f = |e: (String, String)| (e.0@, e.1@);
    let ma = a.entries@.map_values(f);
    let mb = b.entries@.map_values(f);
    assert(ma.len() == a.entries.len());
    assert(mb.len() == b.entries.len());
    assert forall|i: int| 0 <= i < a.entries.len() implies #[trigger] a.entries@[i].0@ == b.entries@[i].0@ && a.entries@[i].1@ == b.entries@[i].1@ by {
        assert(ma[i] == mb[i]);
    }
    assert forall|k: Seq<char>| #[trigger] a.has_key(k) == b.has_key(k) by {
        if a.has_key(k) {
            let i = choose|i: int| 0 <= i < a.entries.len() && #[trigger] a.entries@[i].0@ == k;
            assert(ma[i] == mb[i]);
            assert(b.entries@[i].0@ == k);
        }
        if b.has_key(k) {
            let i = choose|i: int| 0 <= i < b.entries.len() && #[trigger] b.entries@[i].0@ == k;
            assert(ma[i] == mb[i]);
            assert(a.entries@[i].0@ == k);
        }
    }
}

/// A personal edit stays one when the revision is replaced by one with the same content.
proof fn lemma_personal_edit_same(base: GameRevision, personal: PersonalData, a: GameRevision, n: GameRevision)
    requires
        personal_edit(base, personal, a),
        revision_same(GameRevision { revision_id: a.revision_id, parents: a.parents, ..n }, a),
    ensures
        personal_edit(base, personal, GameRevision { revision_id: base.revision_id, parents: base.parents, ..n }),
{
    let x = GameRevision { revision_id: base.revision_id, parents: base.parents, ..n };
    lemma_extra_same_entries(x.game.personal.extra, a.game.personal.extra);
    lemma_extra_same_entries(x.game.extra, a.game.extra);
    lemma_extra_same_entries(x.extra, a.extra);
    assert(personal_same(PersonalData { extra: personal.extra, ..x.game.personal }, personal));
    assert forall|i: int| 0 <= i < personal.extra.entries.len() implies #[trigger] x.game.personal.extra.entries@[i].0@
        == personal.extra.entries@[i].0@ && x.game.personal.extra.entries@[i].1@ == personal.extra.entries@[i].1@ by {
        assert(a.game.personal.extra.entries@[i].0@ == personal.extra.entries@[i].0@);
    }
    assert forall|i: int|
        personal.extra.entries.len() <= i < x.game.personal.extra.entries.len() implies crate::records::taken_from(
            base.game.personal.extra,
            personal.extra,
            #[trigger] x.game.personal.extra.entries@[i],
        ) by {
        let e = a.game.personal.extra.entries@[i];
        assert(crate::records::taken_from(base.game.personal.extra, personal.extra, e));
        let p = choose|p: int|
            0 <= p < base.game.personal.extra.entries.len() && e.0@ == (#[trigger] base.game.personal.extra.entries@[p]).0@
                && e.1@ == base.game.personal.extra.entries@[p].1@ && !personal.extra.has_key(base.game.personal.extra.entries@[p].0@);
        assert(x.game.personal.extra.entries@[i].0@ == e.0@);
    }
}

/// A Steam change stays one when its result is replaced by a section with the same content.
proof fn lemma_steam_changed_same(change: SteamChange, old: SteamData, a: SteamData, b: SteamData)
    requires
        steam_changed(change, old, a),
        crate::records::steam_same(a, b),
    ensures
        steam_changed(change, old, b),
{
    match change {
        SteamChange::Owned { .. } => {},
        _ => {
            let m = b.metadata->0;
            let ma = a.metadata->0;
            let w = choose|w: SteamMetadata| #[trigger] base_metadata(old, w) && match change {
                SteamChange::Details { description, genres, release_year } =>
                    metadata_same(ma, SteamMetadata { genres: genres, release_year: release_year, details_complete: true, ..w }),
                SteamChange::Reviews { label, percent } =>
                    metadata_same(ma, SteamMetadata { review_label: label, review_percent: percent, reviews_complete: true, ..w }),
                SteamChange::Cover { path } =>
                    metadata_same(ma, SteamMetadata { cover: Some(path), cover_complete: true, ..w }),
                _ => false,
            };
            assert(base_metadata(old, w));
        },
    }
}

} // verus!

verus! {

/// `n` is `base` with a new revision ID and parents, and nothing else changed.
pub open spec fn library_child(base: LibraryRevision, id: u128, parents: Seq<u128>, n: LibraryRevision) -> bool {
    &&& n.revision_id == id
    &&& n.parents@ == parents
    &&& library_same(LibraryRevision { revision_id: base.revision_id, parents: base.parents, ..n }, base)
}

/// The library revision of a snapshot that has ID `id`.
pub open spec fn library_of(revisions: Seq<LibraryRevision>, id: u128, x: LibraryRevision) -> bool {
    revisions.contains(x) && x.revision_id == id
}

/// Some known revision defines a status the new definitions drop.
pub open spec fn drops_status(known: Seq<LibraryRevision>, d: LibraryDefinitions) -> bool {
    exists|i: int, j: int| status_removed(known, d, i, j)
}

/// Some known revision defines a collection the new definitions drop.
pub open spec fn drops_collection(known: Seq<LibraryRevision>, d: LibraryDefinitions) -> bool {
    exists|i: int, j: int| collection_removed(known, d, i, j)
}

/// Gives `base` a new revision ID and parents, and checks the result can be written.
pub fn library_child_record(base: &LibraryRevision, id: u128, parents: &Vec<u128>) -> (r: Result<LibraryRevision, LibraryError>)
    ensures
        r matches Ok(n) ==> library_child(*base, id, parents@, n) && library_violation(n) is None,
        r matches Err(e) ==> exists|n: LibraryRevision| #[trigger] library_child(*base, id, parents@, n) && library_violation(n) == Some(e),
{
    let mut record = base.dup();
    record.revision_id = id;
    record.parents = dup_ids(parents);
    match record.validate() {
        Ok(()) => Ok(record),
        Err(e) => {
            assert(library_child(*base, id, parents@, record));
            Err(e)
        },
    }
}

fn library_with<'a>(snapshot: &'a RevisionSnapshot<LibraryRevision>, id: u128) -> (r: Option<&'a LibraryRevision>)
    requires
        snapshot.wf(),
    ensures
        r matches Some(x) ==> library_of(snapshot.revisions@, id, *x),
        r is None ==> !has_id(snapshot.revisions@, id),
{
    match snapshot.find(id) {
        Some(j) => {
            assert(snapshot.revisions@.contains(snapshot.revisions@[j as int]));
            Some(&snapshot.revisions[j])
        },
        None => None,
    }
}

/// A library folder: `library.json` and `history/library/` hold its definitions,
/// `games/`, `media/` and `history/` its games.
pub struct LibraryStore {
    root: String,
}

/// The first revision of a new library: schema 1, no parents, the starter definitions.
pub open spec fn first_library(name: Seq<char>, n: LibraryRevision) -> bool {
    &&& n.schema_version == SCHEMA_VERSION
    &&& n.parents.len() == 0
    &&& n.definitions.name@ == name
    &&& n.definitions.default_status@ == "backlog"@
    &&& starter_statuses(n.definitions.statuses@)
    &&& n.definitions.collections.len() == 0
    &&& n.definitions.steam_account is None
    &&& n.definitions.extra.entries.len() == 0
    &&& n.extra.entries.len() == 0
    &&& (n.library_id >> 76u128) & 0xfu128 == 4
    &&& (n.revision_id >> 76u128) & 0xfu128 == 4
}

impl LibraryStore {
    pub closed spec fn spec_root(&self) -> Seq<char> {
        self.root@
    }

    /// The library folder.
    pub fn root(&self) -> (r: &str)
        ensures
            r@ == self.spec_root(),
    {
        self.root.as_str()
    }

    /// Opens a library without changing files; partial, newer or conflicting definitions
    /// stay inspectable. Every folder of the layout must exist.
    /// It asks the disk about `folder_at(root, ..)` of `games`, `media`, `history` and
    /// `history/library` and decides with `open_with`; which folders exist is the disk's
    /// answer.
    pub fn open(root: &str) -> (r: Result<LibraryStore, StoreError>)
        ensures
            r matches Ok(s) ==> s.spec_root() == root@,
            r matches Err(e) ==> e == StoreError::Unavailable,
    {
        let games = folder_exists(root, "games");
        let media = folder_exists(root, "media");
        let history = folder_exists(root, "history");
        let library_history = folder_exists(root, "history/library");
        Self::open_with(root, games, media, history, library_history)
    }

    /// Opens a library given whether its `games/`, `media/`, `history/` and
    /// `history/library/` folders exist.
    pub fn open_with(root: &str, games: bool, media: bool, history: bool, library_history: bool) -> (r: Result<LibraryStore, StoreError>)
        ensures
            (r is Ok) == (games && media && history && library_history),
            r matches Ok(s) ==> s.spec_root() == root@,
            r matches Err(e) ==> e == StoreError::Unavailable,
    {
        if games && media && history && library_history {
            Ok(LibraryStore { root: root.to_owned() })
        } else {
            Err(StoreError::Unavailable)
        }
    }

    /// The first revision of a new library with fresh identities.
    pub fn first_revision(name: &str) -> (r: Result<LibraryRevision, StoreError>)
        ensures
            r matches Ok(n) ==> first_library(name@, n) && library_violation(n) is None,
            r matches Err(e) ==> e matches StoreError::Library(v) && exists|n: LibraryRevision| #[trigger] first_library(name@, n)
                && library_violation(n) == Some(v),
    {
        let record = LibraryRevision {
            schema_version: SCHEMA_VERSION,
            library_id: random_id(),
            revision_id: random_id(),
            parents: Vec::new(),
            definitions: LibraryDefinitions::new(name),
            extra: ExtraFields::new(),
        };
        match record.validate() {
            Ok(()) => Ok(record),
            Err(e) => {
                assert(first_library(name@, record));
                Err(StoreError::Library(e))
            },
        }
    }

    /// Completes the scan of the definitions: a library without one valid revision needs
    /// attention.
    pub fn note_empty(snapshot: &mut RevisionSnapshot<LibraryRevision>)
        ensures
            final(snapshot).revisions@ == old(snapshot).revisions@,
            final(snapshot).heads@ == old(snapshot).heads@,
            final(snapshot).issues@ == if old(snapshot).revisions@.len() == 0 {
                old(snapshot).issues@.push(RevisionIssue::NoRevisions)
            } else {
                old(snapshot).issues@
            },
    {
        if snapshot.revisions.len() == 0 {
            snapshot.add_issue(RevisionIssue::NoRevisions);
        }
    }

    /// Saves reviewed definitions over `base` as a child of every head. No status or
    /// collection that a known revision defines may disappear.
    fn save_definitions(snapshot: &RevisionSnapshot<LibraryRevision>, base: &LibraryRevision, definitions: LibraryDefinitions) -> (r: Result<LibraryRevision, StoreError>)
        ensures
            drops_status(snapshot.revisions@, definitions) ==> (r matches Err(StoreError::Library(LibraryError::StatusRemoval(k))) && exists|i: int, j: int|
                first_status_removed(snapshot.revisions@, definitions, i, j) && k@ == snapshot.revisions@[i].definitions.statuses@[j].key@),
            !drops_status(snapshot.revisions@, definitions) && drops_collection(snapshot.revisions@, definitions) ==> (r matches Err(StoreError::Library(LibraryError::CollectionRemoval(id))) && exists|i: int, j: int|
                first_collection_removed(snapshot.revisions@, definitions, i, j) && id == snapshot.revisions@[i].definitions.collections@[j].id),
            r matches Ok(n) ==> exists|m: LibraryRevision| #[trigger] definitions_saved(*base, definitions, m)
                && library_child(m, n.revision_id, snapshot.heads@, n) && library_violation(n) is None && (n.revision_id >> 76u128) & 0xfu128 == 4,
            !drops_status(snapshot.revisions@, definitions) && !drops_collection(snapshot.revisions@, definitions) ==> (r matches Ok(_) || (r matches Err(StoreError::Library(e))
                && exists|m: LibraryRevision, n: LibraryRevision| #![trigger definitions_saved(*base, definitions, m), library_violation(n)]
                    definitions_saved(*base, definitions, m) && library_child(m, n.revision_id, snapshot.heads@, n) && library_violation(n) == Some(e) && (n.revision_id >> 76u128) & 0xfu128 == 4)),
    {
        let ghost given = definitions;
        let saved = match merge_definitions(&snapshot.revisions, base, definitions) {
            Ok(m) => m,
            Err(e) => {
                return Err(StoreError::Library(e));
            },
        };
        let id = random_id();
        match library_child_record(&saved, id, &snapshot.heads) {
            Ok(n) => {
                assert(definitions_saved(*base, given, saved));
                Ok(n)
            },
            Err(e) => {
                assert(definitions_saved(*base, given, saved));
                Err(StoreError::Library(e))
            },
        }
    }

    /// Updates name, default status, labels, order, eligibility or collections of the
    /// reviewed revision. Existing keys cannot be removed, since games may still use them.
    pub fn edit(&self, snapshot: &RevisionSnapshot<LibraryRevision>, expected: u128, definitions: LibraryDefinitions) -> (r: Result<LibraryRevision, StoreError>)
        requires
            snapshot.wf(),
        ensures
            !accepted(*snapshot, seq![expected]) ==> r == Err::<LibraryRevision, StoreError>(history_refusal(*snapshot, seq![expected])),
            accepted(*snapshot, seq![expected]) && !has_id(snapshot.revisions@, expected) ==> r == Err::<LibraryRevision, StoreError>(StoreError::History(HistoryError::Changed)),
            accepted(*snapshot, seq![expected]) && has_id(snapshot.revisions@, expected) && drops_status(snapshot.revisions@, definitions) ==> (r matches Err(StoreError::Library(LibraryError::StatusRemoval(k))) && exists|i: int, j: int|
                first_status_removed(snapshot.revisions@, definitions, i, j) && k@ == snapshot.revisions@[i].definitions.statuses@[j].key@),
            accepted(*snapshot, seq![expected]) && has_id(snapshot.revisions@, expected) && !drops_status(snapshot.revisions@, definitions) && drops_collection(snapshot.revisions@, definitions)
                ==> (r matches Err(StoreError::Library(LibraryError::CollectionRemoval(id))) && exists|i: int, j: int|
                first_collection_removed(snapshot.revisions@, definitions, i, j) && id == snapshot.revisions@[i].definitions.collections@[j].id),
            r matches Ok(n) ==> exists|b: LibraryRevision, m: LibraryRevision| #![trigger library_of(snapshot.revisions@, expected, b), definitions_saved(b, definitions, m)]
                library_of(snapshot.revisions@, expected, b) && definitions_saved(b, definitions, m)
                && library_child(m, n.revision_id, snapshot.heads@, n) && library_violation(n) is None && (n.revision_id >> 76u128) & 0xfu128 == 4,
            accepted(*snapshot, seq![expected]) && has_id(snapshot.revisions@, expected) && !drops_status(snapshot.revisions@, definitions)
                && !drops_collection(snapshot.revisions@, definitions) ==> (r matches Ok(_) || (r matches Err(StoreError::Library(e))
                && exists|b: LibraryRevision, m: LibraryRevision, n: LibraryRevision|
                    #![trigger library_of(snapshot.revisions@, expected, b), definitions_saved(b, definitions, m), library_violation(n)]
                    library_of(snapshot.revisions@, expected, b) && definitions_saved(b, definitions, m)
                    && library_child(m, n.revision_id, snapshot.heads@, n) && library_violation(n) == Some(e) && (n.revision_id >> 76u128) & 0xfu128 == 4)),
    {
        let expected_heads = vec![expected];
        assert(expected_heads@ == seq![expected]);
        match snapshot.check_heads(&expected_heads) {
            Err(e) => {
                return Err(StoreError::History(e));
            },
            Ok(()) => {},
        }
        let base = match library_with(snapshot, expected) {
            Some(b) => b,
            None => {
                return Err(StoreError::History(HistoryError::Changed));
            },
        };
        assert(library_of(snapshot.revisions@, expected, *base));
        Self::save_definitions(snapshot, base, definitions)
    }
}

} // verus!

verus! {

impl LibraryStore {
    /// Saves the reviewed definitions over the chosen branch and acknowledges every
    /// conflicting head; the unknown fields of the chosen branch stay.
    pub fn resolve(&self, snapshot: &RevisionSnapshot<LibraryRevision>, expected: &Vec<u128>, chosen: u128, definitions: LibraryDefinitions) -> (r: Result<LibraryRevision, StoreError>)
        requires
            snapshot.wf(),
        ensures
            !valid_choice(expected@, chosen) ==> r == Err::<LibraryRevision, StoreError>(StoreError::ChooseConflict),
            valid_choice(expected@, chosen) && !accepted(*snapshot, expected@) ==> r == Err::<LibraryRevision, StoreError>(history_refusal(*snapshot, expected@)),
            valid_choice(expected@, chosen) && accepted(*snapshot, expected@) && !has_id(snapshot.revisions@, chosen) ==> r == Err::<LibraryRevision, StoreError>(StoreError::History(HistoryError::Changed)),
            valid_choice(expected@, chosen) && accepted(*snapshot, expected@) && has_id(snapshot.revisions@, chosen) && drops_status(snapshot.revisions@, definitions)
                ==> (r matches Err(StoreError::Library(LibraryError::StatusRemoval(k))) && exists|i: int, j: int|
                first_status_removed(snapshot.revisions@, definitions, i, j) && k@ == snapshot.revisions@[i].definitions.statuses@[j].key@),
            valid_choice(expected@, chosen) && accepted(*snapshot, expected@) && has_id(snapshot.revisions@, chosen) && !drops_status(snapshot.revisions@, definitions)
                && drops_collection(snapshot.revisions@, definitions) ==> (r matches Err(StoreError::Library(LibraryError::CollectionRemoval(id))) && exists|i: int, j: int|
                first_collection_removed(snapshot.revisions@, definitions, i, j) && id == snapshot.revisions@[i].definitions.collections@[j].id),
            r matches Ok(n) ==> exists|b: LibraryRevision, m: LibraryRevision| #![trigger library_of(snapshot.revisions@, chosen, b), definitions_saved(b, definitions, m)]
                library_of(snapshot.revisions@, chosen, b) && definitions_saved(b, definitions, m)
                && library_child(m, n.revision_id, snapshot.heads@, n) && library_violation(n) is None && (n.revision_id >> 76u128) & 0xfu128 == 4,
            valid_choice(expected@, chosen) && accepted(*snapshot, expected@) && has_id(snapshot.revisions@, chosen) && !drops_status(snapshot.revisions@, definitions)
                && !drops_collection(snapshot.revisions@, definitions) ==> (r matches Ok(_) || (r matches Err(StoreError::Library(e))
                && exists|b: LibraryRevision, m: LibraryRevision, n: LibraryRevision|
                    #![trigger library_of(snapshot.revisions@, chosen, b), definitions_saved(b, definitions, m), library_violation(n)]
                    library_of(snapshot.revisions@, chosen, b) && definitions_saved(b, definitions, m)
                    && library_child(m, n.revision_id, snapshot.heads@, n) && library_violation(n) == Some(e) && (n.revision_id >> 76u128) & 0xfu128 == 4)),
    {
        if !is_valid_choice(expected, chosen) {
            return Err(StoreError::ChooseConflict);
        }
        match snapshot.check_heads(expected) {
            Err(e) => {
                return Err(StoreError::History(e));
            },
            Ok(()) => {},
        }
        let base = match library_with(snapshot, chosen) {
            Some(b) => b,
            None => {
                return Err(StoreError::History(HistoryError::Changed));
            },
        };
        assert(library_of(snapshot.revisions@, chosen, *base));
        Self::save_definitions(snapshot, base, definitions)
    }

    /// Binds the library to one Steam account, once. A library bound to this account
    /// needs no new revision (`None`); one bound to another account refuses.
    pub fn bind_steam(&self, snapshot: &RevisionSnapshot<LibraryRevision>, expected: u128, account: &str) -> (r: Result<Option<LibraryRevision>, StoreError>)
        requires
            snapshot.wf(),
        ensures
            bind_outcome(*snapshot, expected, account@, r),
    {
        let current = match snapshot.current() {
            Some(c) => c,
            None => {
                return Err(StoreError::NoCurrentLibrary);
            },
        };
        if current.revision_id != expected {
            return Err(StoreError::Library(LibraryError::Changed));
        }
        proof {
            assert(library_of(snapshot.revisions@, expected, *current));
            assert forall|b: LibraryRevision| #[trigger] library_of(snapshot.revisions@, expected, b) implies b == *current by {
                lemma_one_library(*snapshot, expected, b, *current);
            }
        }
        match &current.definitions.steam_account {
            Some(existing) => {
                if crate::text::str_eq(existing.as_str(), account) {
                    return Ok(None);
                }
                return Err(StoreError::Library(LibraryError::OtherAccount));
            },
            None => {},
        }
        let mut definitions = current.definitions.dup();
        definitions.steam_account = Some(account.to_owned());
        let ghost given = definitions;
        assert(bound_to(current.definitions, account@, given));
        assert(snapshot.heads@ =~= seq![expected]);
        let result = self.edit(snapshot, expected, definitions);
        let ghost outcome = result;
        proof {
            match outcome {
                Err(StoreError::Library(e)) => {
                    assert(save_refusal(snapshot.revisions@, snapshot.heads@, *current, given, e));
                },
                _ => {},
            }
        }
        match result {
            Ok(n) => Ok(Some(n)),
            Err(e) => Err(e),
        }
    }
}

/// Why saving definitions `d` over revision `b` is refused: a status key or a collection
/// that a known revision defines is missing from `d` (the first such one is named), or
/// the child revision to publish, with a fresh version-4 ID, is invalid.
pub open spec fn save_refusal(revisions: Seq<LibraryRevision>, heads: Seq<u128>, b: LibraryRevision, d: LibraryDefinitions, e: LibraryError) -> bool {
    if drops_status(revisions, d) {
        e matches LibraryError::StatusRemoval(k) && exists|i: int, j: int| #[trigger] first_status_removed(revisions, d, i, j)
            && k@ == revisions[i].definitions.statuses@[j].key@
    } else if drops_collection(revisions, d) {
        e matches LibraryError::CollectionRemoval(id) && exists|i: int, j: int| #[trigger] first_collection_removed(revisions, d, i, j)
            && id == revisions[i].definitions.collections@[j].id
    } else {
        exists|m: LibraryRevision, n: LibraryRevision| #![trigger definitions_saved(b, d, m), library_violation(n)]
            definitions_saved(b, d, m) && library_child(m, n.revision_id, heads, n) && library_violation(n) == Some(e)
            && (n.revision_id >> 76u128) & 0xfu128 == 4
    }
}

/// What binding the library to the Steam account `account` gives: a refusal without a
/// current library or when the reviewed revision is not it; nothing to write when it is
/// already bound to this account; a refusal when it belongs to another; otherwise the child
/// that binds it, or the refusal of saving those definitions.
pub open spec fn bind_outcome(snapshot: RevisionSnapshot<LibraryRevision>, expected: u128, account: Seq<char>, r: Result<Option<LibraryRevision>, StoreError>) -> bool {
    &&& !(snapshot.issues@.len() == 0 && snapshot.heads@.len() == 1 && has_id(snapshot.revisions@, snapshot.heads@[0]))
            ==> r == Err::<Option<LibraryRevision>, StoreError>(StoreError::NoCurrentLibrary)
    &&& snapshot.issues@.len() == 0 && snapshot.heads@.len() == 1 && has_id(snapshot.revisions@, snapshot.heads@[0]) && snapshot.heads@[0] != expected
            ==> r == Err::<Option<LibraryRevision>, StoreError>(StoreError::Library(LibraryError::Changed))
    &&& snapshot.issues@.len() == 0 && snapshot.heads@ == seq![expected] ==> forall|b: LibraryRevision| #[trigger] library_of(snapshot.revisions@, expected, b) ==> {
            &&& (b.definitions.steam_account matches Some(a) && a@ == account) ==> r == Ok::<Option<LibraryRevision>, StoreError>(None)
            &&& (b.definitions.steam_account matches Some(a) && a@ != account) ==> r == Err::<Option<LibraryRevision>, StoreError>(
                StoreError::Library(LibraryError::OtherAccount))
            &&& b.definitions.steam_account is None ==> (r matches Ok(Some(_)) || (r matches Err(StoreError::Library(e))
                && exists|d: LibraryDefinitions| #[trigger] bound_to(b.definitions, account, d)
                    && save_refusal(snapshot.revisions@, snapshot.heads@, b, d, e)))
        }
    &&& r matches Ok(Some(n)) ==> exists|b: LibraryRevision, d: LibraryDefinitions, m: LibraryRevision|
            #![trigger library_of(snapshot.revisions@, expected, b), definitions_saved(b, d, m)]
            library_of(snapshot.revisions@, expected, b) && b.definitions.steam_account is None && bound_to(b.definitions, account, d)
            && definitions_saved(b, d, m) && library_child(m, n.revision_id, snapshot.heads@, n)
            && opt_str(n.definitions.steam_account) == Some(account) && library_violation(n) is None
}

/// Binding never replaces an account: a library bound to this account needs nothing
/// written and one bound to another is refused. A library with no account, whose bound
/// definitions meet no save refusal, gets the child of its current revision that names the
/// account and keeps its name, default status, statuses and collections.
pub proof fn law_binding_sets_only_the_account(snapshot: RevisionSnapshot<LibraryRevision>, expected: u128, account: Seq<char>, b: LibraryRevision, r: Result<Option<LibraryRevision>, StoreError>)
    requires
        snapshot.wf(),
        snapshot.issues@.len() == 0,
        snapshot.heads@ == seq![expected],
        library_of(snapshot.revisions@, expected, b),
        bind_outcome(snapshot, expected, account, r),
        b.definitions.steam_account is None ==> forall|d: LibraryDefinitions, e: LibraryError| #![trigger save_refusal(snapshot.revisions@, snapshot.heads@, b, d, e)]
            bound_to(b.definitions, account, d) ==> !save_refusal(snapshot.revisions@, snapshot.heads@, b, d, e),
    ensures
        b.definitions.steam_account is Some ==> (r == Ok::<Option<LibraryRevision>, StoreError>(None)
            || r == Err::<Option<LibraryRevision>, StoreError>(StoreError::Library(LibraryError::OtherAccount))),
        b.definitions.steam_account is None ==> (r matches Ok(Some(n)) && n.parents@ == seq![expected]
            && n.library_id == b.library_id && opt_str(n.definitions.steam_account) == Some(account)
            && n.definitions.name@ == b.definitions.name@ && n.definitions.default_status@ == b.definitions.default_status@
            && n.definitions.statuses.len() == b.definitions.statuses.len()
            && n.definitions.collections.len() == b.definitions.collections.len()),
{
    assert(has_id(snapshot.revisions@, snapshot.heads@[0]));
    if b.definitions.steam_account is None {
        match r {
            Ok(Some(n)) => {
                let (b2, d, m) = choose|b2: LibraryRevision, d: LibraryDefinitions, m: LibraryRevision|
                    #![trigger library_of(snapshot.revisions@, expected, b2), definitions_saved(b2, d, m)]
                    library_of(snapshot.revisions@, expected, b2) && b2.definitions.steam_account is None && bound_to(b2.definitions, account, d)
                    && definitions_saved(b2, d, m) && library_child(m, n.revision_id, snapshot.heads@, n)
                    && opt_str(n.definitions.steam_account) == Some(account) && library_violation(n) is None;
                lemma_one_library(snapshot, expected, b2, b);
            },
            Err(StoreError::Library(e)) => {
                let d = choose|d: LibraryDefinitions| #[trigger] bound_to(b.definitions, account, d)
                    && save_refusal(snapshot.revisions@, snapshot.heads@, b, d, e);
                assert(!save_refusal(snapshot.revisions@, snapshot.heads@, b, d, e));
            },
            _ => {},
        }
    }
}

/// `d` is `old` bound to the Steam account `account`, and otherwise the same.
pub open spec fn bound_to(old: LibraryDefinitions, account: Seq<char>, d: LibraryDefinitions) -> bool {
    &&& opt_str(d.steam_account) == Some(account)
    &&& crate::library::definitions_same(LibraryDefinitions { steam_account: old.steam_account, ..d }, old)
}

/// Within a snapshot whose IDs are increasing, one library revision has a given ID.
proof fn lemma_one_library(snapshot: RevisionSnapshot<LibraryRevision>, id: u128, a: LibraryRevision, b: LibraryRevision)
    requires
        snapshot.wf(),
        library_of(snapshot.revisions@, id, a),
        library_of(snapshot.revisions@, id, b),
    ensures
        a == b,
{
    let recs = snapshot.revisions@;
    let i = choose|i: int| 0 <= i < recs.len() && recs[i] == a;
    let j = choose|j: int| 0 <= j < recs.len() && recs[j] == b;
    let ids = crate::revisions::ids_of(recs);
    if i < j {
        assert(ids[i] < ids[j]);
    } else if j < i {
        assert(ids[j] < ids[i]);
    }
}

} // verus!

verus! {

/// What saving `personal` over revision `expected_game` of a game gives while the reviewed
/// library definitions `expected_library` must be current: the refusal of definitions that
/// changed or need attention, of a status they do not define, or the outcome of the
/// personal edit itself.
pub open spec fn game_edit_outcome(library: RevisionSnapshot<LibraryRevision>, expected_library: LibraryRevision, game: RevisionSnapshot<GameRevision>, expected_game: u128, personal: PersonalData, r: Result<GameRevision, StoreError>) -> bool {
    &&& !accepted(library, seq![expected_library.revision_id]) ==> r == Err::<GameRevision, StoreError>(history_refusal(library, seq![expected_library.revision_id]))
    &&& accepted(library, seq![expected_library.revision_id]) && !has_id(library.revisions@, expected_library.revision_id)
        ==> r == Err::<GameRevision, StoreError>(StoreError::History(HistoryError::Changed))
    &&& accepted(library, seq![expected_library.revision_id]) ==> forall|b: LibraryRevision| #[trigger] library_of(library.revisions@, expected_library.revision_id, b) ==> {
        &&& !library_same(b, expected_library) ==> r == Err::<GameRevision, StoreError>(StoreError::Library(LibraryError::Changed))
        &&& library_same(b, expected_library) && !has_status_key(b.definitions.statuses@, personal.status@)
            ==> r == Err::<GameRevision, StoreError>(StoreError::Library(LibraryError::UnknownStatus))
        &&& library_same(b, expected_library) && has_status_key(b.definitions.statuses@, personal.status@)
            ==> personal_outcome(game, expected_game, personal, r)
    }
}

impl LibraryStore {
    /// Saves a personal edit of a game while the reviewed library definitions are current;
    /// the new status must be one of them.
    pub fn edit_game_personal(&self, library: &RevisionSnapshot<LibraryRevision>, expected_library: &LibraryRevision, game: &RevisionSnapshot<GameRevision>, expected_game: u128, personal: PersonalData) -> (r: Result<GameRevision, StoreError>)
        requires
            library.wf(),
            game.wf(),
        ensures
            game_edit_outcome(*library, *expected_library, *game, expected_game, personal, r),
    {
        let expected_heads = vec![expected_library.revision_id];
        assert(expected_heads@ == seq![expected_library.revision_id]);
        match library.check_heads(&expected_heads) {
            Err(e) => {
                return Err(StoreError::History(e));
            },
            Ok(()) => {},
        }
        let current = match library_with(library, expected_library.revision_id) {
            Some(c) => c,
            None => {
                return Err(StoreError::History(HistoryError::Changed));
            },
        };
        proof {
            assert forall|b: LibraryRevision| #[trigger] library_of(library.revisions@, expected_library.revision_id, b) implies b == *current by {
                lemma_one_library(*library, expected_library.revision_id, b, *current);
            }
        }
        if !crate::library::library_eq(current, expected_library) {
            return Err(StoreError::Library(LibraryError::Changed));
        }
        if current.definitions.status(personal.status.as_str()).is_none() {
            return Err(StoreError::Library(LibraryError::UnknownStatus));
        }
        let records = RecordStore { root: self.root.clone() };
        records.edit_personal(game, expected_game, personal)
    }
}

impl LibraryStore {
    /// One game of a bulk edit: the change applied to the personal data of the revision the
    /// selection was made from, saved through the same guard as any personal edit. Values
    /// the change leaves as they were are saved too, so a stale selection is refused.
    pub fn edit_game_change(&self, library: &RevisionSnapshot<LibraryRevision>, expected_library: &LibraryRevision, game: &RevisionSnapshot<GameRevision>, base: &GameRevision, change: &crate::records::Change) -> (r: Result<GameRevision, StoreError>)
        requires
            library.wf(),
            game.wf(),
        ensures
            exists|p: PersonalData| crate::records::change_applied(*change, base.game.personal, p)
                && game_edit_outcome(*library, *expected_library, *game, base.revision_id, p, r),
    {
        let mut personal = base.game.personal.dup();
        let ghost start = personal;
        change.apply(&mut personal);
        proof {
            crate::records::lemma_change_applied_same(*change, start, base.game.personal, personal);
        }
        self.edit_game_personal(library, expected_library, game, base.revision_id, personal)
    }
}

} // verus!

verus! {

/// The UUID that `uuid::Uuid::new_v5` derives from `name` within `namespace`.
pub uninterp spec fn v5_uuid(namespace: u128, name: Seq<u8>) -> u128;

/// `uuid::Uuid::new_v5`: the name-based (SHA-1) UUID of `name` within `namespace`. The
/// same arguments give the same UUID, whose version is 5 and variant RFC 4122.
#[verifier::external_body]
fn name_based_id(namespace: u128, name: &[u8]) -> (r: u128)
    ensures
        r == v5_uuid(namespace, name@),
        (r >> 76u128) & 0xfu128 == 5,
        (r >> 62u128) & 0x3u128 == 2,
{
    uuid::Uuid::new_v5(&uuid::Uuid::from_u128(namespace), name).as_u128()
}

/// The ASCII decimal digits of `n`.
pub open spec fn decimal_bytes(n: nat) -> Seq<u8>
    decreases n,
{
    if n < 10 {
        seq![(48 + n) as u8]
    } else {
        decimal_bytes(n / 10).push((48 + n % 10) as u8)
    }
}

/// The name a Steam game's identity is derived from: `steam:` and its App ID.
pub open spec fn steam_name(app_id: u32) -> Seq<u8> {
    seq![115u8, 116u8, 101u8, 97u8, 109u8, 58u8] + decimal_bytes(app_id as nat)
}

fn push_decimal_bytes(out: &mut Vec<u8>, n: u64)
    ensures
        final(out)@ == old(out)@ + decimal_bytes(n as nat),
    decreases n,
{
    if n >= 10 {
        push_decimal_bytes(out, n / 10);
    }
    let d = (n % 10) as u8;
    out.push(48 + d);
    assert(final(out)@ =~= old(out)@ + decimal_bytes(n as nat));
}

/// The identity of a Steam game in a library: the same App ID imported on two devices
/// gets the same game ID.
pub fn steam_game_id(library_id: u128, app_id: u32) -> (r: u128)
    ensures
        r == v5_uuid(library_id, steam_name(app_id)),
        r != 0,
{
    let mut name: Vec<u8> = vec![115u8, 116u8, 101u8, 97u8, 109u8, 58u8];
    push_decimal_bytes(&mut name, app_id as u64);
    assert(name@ =~= steam_name(app_id));
    let r = name_based_id(library_id, name.as_slice());
    assert(r == 0 ==> (r >> 76u128) & 0xfu128 == 0) by (bit_vector);
    r
}

/// A game found while importing from Steam: its ID and the revisions read for it.
pub struct SteamCandidate {
    pub game_id: u128,
    pub records: RevisionSnapshot<GameRevision>,
}

/// What a Steam import comes to: a child of an existing game, a new game, or the current
/// revision of an existing game that the import would not change, so nothing is written.
#[derive(Debug)]
pub enum SteamImport {
    Update(GameRevision),
    Create(GameRevision),
    Unchanged(GameRevision),
}

pub open spec fn steam_app(r: GameRevision) -> Option<u32> {
    match r.game.steam {
        Some(s) => Some(s.app_id),
        None => None,
    }
}

/// Some revision links the game to this Steam app.
pub open spec fn links_app(recs: Seq<GameRevision>, app_id: u32) -> bool {
    exists|i: int| 0 <= i < recs.len() && #[trigger] steam_app(recs[i]) == Some(app_id)
}

/// Nothing needs attention and there is a single current revision.
pub open spec fn has_current<T: crate::revisions::Revision>(s: RevisionSnapshot<T>) -> bool {
    s.issues@.len() == 0 && s.heads@.len() == 1 && has_id(s.revisions@, s.heads@[0])
}

/// The game data a Steam import starts from.
pub open spec fn imported_data(game: OwnedGame, status: Seq<char>, data: GameData) -> bool {
    &&& data.title@ == game.name@
    &&& data.steam matches Some(s) && s.app_id == game.appid && s.description is None
        && s.playtime_minutes == game.playtime_forever && s.owned && s.metadata is None && s.extra.entries.len() == 0
    &&& data.personal.status@ == status
    &&& blank_personal(data.personal)
    &&& data.extra.entries.len() == 0
}

proof fn lemma_imported(library_id: u128, game: OwnedGame, status: Seq<char>, data: GameData, n: GameRevision)
    requires
        imported_data(game, status, data),
        first_revision(v5_uuid(library_id, steam_name(game.appid)), n.revision_id, data, n),
        (n.revision_id >> 76u128) & 0xfu128 == 4,
    ensures
        imported_record(library_id, game, status, n),
{
    let s = n.game.steam->0;
    let d = data.steam->0;
    assert(s.extra.entries@.map_values(|e: (String, String)| (e.0@, e.1@)).len() == s.extra.entries.len());
    assert(d.extra.entries@.map_values(|e: (String, String)| (e.0@, e.1@)).len() == d.extra.entries.len());
    let p = n.game.personal;
    let q = data.personal;
    assert(p.extra.entries@.map_values(|e: (String, String)| (e.0@, e.1@)).len() == p.extra.entries.len());
    assert(q.extra.entries@.map_values(|e: (String, String)| (e.0@, e.1@)).len() == q.extra.entries.len());
    assert(crate::records::strs(p.tags@).len() == p.tags.len());
    assert(crate::records::strs(q.tags@).len() == q.tags.len());
    let g = n.game.extra;
    assert(g.entries@.map_values(|e: (String, String)| (e.0@, e.1@)).len() == g.entries.len());
    assert(data.extra.entries@.map_values(|e: (String, String)| (e.0@, e.1@)).len() == data.extra.entries.len());
}

/// Candidates, in order, that use this App ID, or the refusal of the first candidate
/// that prevents a safe match: one with conflicting or incomplete versions, or one whose
/// files cannot be read.
pub open spec fn match_scan(cands: Seq<SteamCandidate>, app_id: u32) -> Result<Seq<usize>, StoreError>
    decreases cands.len(),
{
    if cands.len() == 0 {
        Ok(Seq::empty())
    } else {
        match match_scan(cands.drop_last(), app_id) {
            Err(e) => Err(e),
            Ok(ks) => {
                let c = cands.last();
                if links_app(c.records.revisions@, app_id) {
                    if has_current(c.records) {
                        Ok(ks.push((cands.len() - 1) as usize))
                    } else {
                        Err(StoreError::SteamConflict)
                    }
                } else if c.records.issues@.len() > 0 {
                    Err(StoreError::UnreadableGames)
                } else {
                    Ok(ks)
                }
            },
        }
    }
}

/// Personal data with nothing set but its status.
pub open spec fn blank_personal(p: PersonalData) -> bool {
    &&& p.rating is None
    &&& !p.favorite
    &&& p.tags.len() == 0
    &&& p.notes@.len() == 0
    &&& p.description is None
    &&& p.cover is None
    &&& p.collections.len() == 0
    &&& !p.hidden
    &&& p.extra.entries.len() == 0
}

/// The first revision of a game imported from Steam into library `library_id`.
pub open spec fn imported_record(library_id: u128, game: OwnedGame, status: Seq<char>, n: GameRevision) -> bool {
    &&& n.schema_version == SCHEMA_VERSION
    &&& n.game_id == v5_uuid(library_id, steam_name(game.appid))
    &&& n.parents.len() == 0
    &&& !n.deleted
    &&& n.game.title@ == game.name@
    &&& n.game.steam matches Some(s) && s.app_id == game.appid && s.description is None
        && s.playtime_minutes == game.playtime_forever && s.owned && s.metadata is None && s.extra.entries.len() == 0
    &&& n.game.personal.status@ == status
    &&& blank_personal(n.game.personal)
    &&& n.game.extra.entries.len() == 0
    &&& n.extra.entries.len() == 0
    &&& (n.revision_id >> 76u128) & 0xfu128 == 4
}

fn links_app_exec(recs: &Vec<GameRevision>, app_id: u32) -> (r: bool)
    ensures
        r == links_app(recs@, app_id),
{
    let mut i: usize = 0;
    while i < recs.len()
        invariant
            i <= recs.len(),
            forall|k: int| 0 <= k < i ==> #[trigger] steam_app(recs@[k]) != Some(app_id),
        decreases recs.len() - i,
    {
        match &recs[i].game.steam {
            Some(s) => {
                if s.app_id == app_id {
                    assert(steam_app(recs@[i as int]) == Some(app_id));
                    return true;
                }
            },
            None => {},
        }
        i += 1;
    }
    false
}

proof fn lemma_scan_err_extends(cands: Seq<SteamCandidate>, i: int, app_id: u32)
    requires
        0 <= i <= cands.len(),
        match_scan(cands.subrange(0, i), app_id) is Err,
    ensures
        match_scan(cands, app_id) == match_scan(cands.subrange(0, i), app_id),
    decreases cands.len() - i,
{
    if i < cands.len() {
        let d = cands.drop_last();
        assert(d.subrange(0, i) =~= cands.subrange(0, i));
        lemma_scan_err_extends(d, i, app_id);
    } else {
        assert(cands.subrange(0, i) =~= cands);
    }
}

proof fn lemma_scan_indices(cands: Seq<SteamCandidate>, app_id: u32)
    requires
        cands.len() <= usize::MAX,
    ensures
        match_scan(cands, app_id) matches Ok(ks) ==> forall|j: int| #![trigger ks[j]] 0 <= j < ks.len() ==> ks[j] < cands.len()
            && has_current(cands[ks[j] as int].records),
    decreases cands.len(),
{
    if cands.len() > 0 {
        let d = cands.drop_last();
        lemma_scan_indices(d, app_id);
        if match_scan(cands, app_id) is Ok {
            let ks = match_scan(cands, app_id)->Ok_0;
            let kd = match_scan(d, app_id)->Ok_0;
            let c = cands.last();
            if links_app(c.records.revisions@, app_id) && has_current(c.records) {
                assert(ks == kd.push((cands.len() - 1) as usize));
            } else {
                assert(ks == kd);
            }
            assert forall|j: int| #![trigger ks[j]] 0 <= j < ks.len() implies ks[j] < cands.len() && has_current(cands[ks[j] as int].records) by {
                let kd = match_scan(d, app_id)->Ok_0;
                if j < kd.len() {
                    assert(ks[j] == kd[j]);
                    assert(has_current(d[kd[j] as int].records));
                    assert(cands[ks[j] as int] == d[kd[j] as int]);
                } else {
                    assert(links_app(c.records.revisions@, app_id) && has_current(c.records));
                    assert(ks[j] == cands.len() - 1);
                    assert(cands[ks[j] as int] == c);
                }
            }
        }
    }
}

fn scan_candidates(cands: &Vec<SteamCandidate>, app_id: u32) -> (r: Result<Vec<usize>, StoreError>)
    requires
        forall|k: int| 0 <= k < cands.len() ==> (#[trigger] cands@[k]).records.wf(),
    ensures
        match match_scan(cands@, app_id) {
            Ok(ks) => r matches Ok(v) && v@ == ks,
            Err(e) => r == Err::<Vec<usize>, StoreError>(e),
        },
{
    let mut found: Vec<usize> = Vec::new();
    let mut i: usize = 0;
    while i < cands.len()
        invariant
            i <= cands.len(),
            forall|k: int| 0 <= k < cands.len() ==> (#[trigger] cands@[k]).records.wf(),
            match_scan(cands@.subrange(0, i as int), app_id) == Ok::<Seq<usize>, StoreError>(found@),
        decreases cands.len() - i,
    {
        let c = &cands[i];
        let ghost sub = cands@.subrange(0, i + 1);
        assert(sub.drop_last() =~= cands@.subrange(0, i as int));
        assert(sub.last() == cands@[i as int]);
        assert(c.records.wf());
        if links_app_exec(&c.records.revisions, app_id) {
            if c.records.issues.len() == 0 && c.records.heads.len() == 1 && c.records.find(c.records.heads[0]).is_some() {
                found.push(i);
            } else {
                proof {
                    lemma_scan_err_extends(cands@, i + 1, app_id);
                }
                return Err(StoreError::SteamConflict);
            }
        } else if c.records.issues.len() > 0 {
            proof {
                lemma_scan_err_extends(cands@, i + 1, app_id);
            }
            return Err(StoreError::UnreadableGames);
        }
        i += 1;
    }
    assert(cands@.subrange(0, cands.len() as int) =~= cands@);
    Ok(found)
}

} // verus!

verus! {

/// What updating the single game that uses the App ID of `game` gives: the child of its
/// current revision with the new playtime, the refusal of a current revision that no
/// longer uses the App ID, or the refusal of an updated record that is invalid.
pub open spec fn owned_update(c: RevisionSnapshot<GameRevision>, game: OwnedGame, r: Result<SteamImport, StoreError>) -> bool {
    let change = SteamChange::Owned { playtime_minutes: game.playtime_forever };
    &&& owned_unchanged(c, game) ==> exists|b: GameRevision| #[trigger] revision_of(c.revisions@, c.heads@[0], b)
        && (r matches Ok(SteamImport::Unchanged(n)) && revision_same(n, b))
    &&& !owned_unchanged(c, game) ==> {
        &&& (r matches Ok(SteamImport::Update(_))) || (r matches Err(StoreError::SteamMismatch)) || (r matches Err(StoreError::InvalidRecord(_)))
        &&& r matches Ok(SteamImport::Update(n)) ==> steam_updated(c, game.appid, change, n) && game_violation(n) is None
        &&& forall|b: GameRevision| #[trigger] revision_of(c.revisions@, c.heads@[0], b)
            ==> (!(b.game.steam matches Some(s) && s.app_id == game.appid) <==> r == Err::<SteamImport, StoreError>(StoreError::SteamMismatch))
        &&& r matches Err(StoreError::InvalidRecord(e)) ==> exists|n: GameRevision| #![trigger game_violation(n)]
            steam_updated(c, game.appid, change, n) && game_violation(n) == Some(e)
    }
}

/// The current revision of the game already records this game as owned, with this
/// playtime: importing it again changes nothing.
pub open spec fn owned_unchanged(c: RevisionSnapshot<GameRevision>, game: OwnedGame) -> bool {
    exists|b: GameRevision| #[trigger] revision_of(c.revisions@, c.heads@[0], b)
        && (b.game.steam matches Some(s) && s.app_id == game.appid && s.owned && s.playtime_minutes == game.playtime_forever)
}

/// Importing an owned game a second time, over the history its first import left, gives
/// back that first revision unchanged: the same game and revision, and nothing to write.
pub proof fn law_second_import_changes_nothing(library_id: u128, game: OwnedGame, status: Seq<char>, first: GameRevision, c: RevisionSnapshot<GameRevision>, r: Result<SteamImport, StoreError>)
    requires
        imported_record(library_id, game, status, first),
        c.wf(),
        c.heads@ == seq![first.revision_id],
        c.revisions@.contains(first),
        owned_update(c, game, r),
    ensures
        r matches Ok(SteamImport::Unchanged(m)) && revision_same(m, first),
{
    assert(revision_of(c.revisions@, c.heads@[0], first));
    assert(owned_unchanged(c, game));
    let b = choose|b: GameRevision| #[trigger] revision_of(c.revisions@, c.heads@[0], b)
        && (r matches Ok(SteamImport::Unchanged(n)) && revision_same(n, b));
    lemma_one_revision(c, c.heads@[0], b, first);
}

impl LibraryStore {
    /// Imports one owned Steam game into a library bound to `account`: the single game
    /// that already uses its App ID is updated, otherwise a game with the identity derived
    /// from the library and the App ID is created. `discovery_issues` counts the library
    /// files that could not be attributed to a game.
    pub fn import_steam(&self, library: &RevisionSnapshot<LibraryRevision>, account: &str, game: &OwnedGame, discovery_issues: usize, candidates: &Vec<SteamCandidate>) -> (r: Result<SteamImport, StoreError>)
        requires
            library.wf(),
            forall|k: int| 0 <= k < candidates.len() ==> (#[trigger] candidates@[k]).records.wf(),
        ensures
            !has_current(*library) ==> r == Err::<SteamImport, StoreError>(StoreError::NoCurrentLibrary),
            has_current(*library) ==> forall|b: LibraryRevision| #[trigger] library_of(library.revisions@, library.heads@[0], b) ==> {
                &&& opt_str(b.definitions.steam_account) != Some(account@) ==> r == Err::<SteamImport, StoreError>(StoreError::AccountMismatch)
                &&& opt_str(b.definitions.steam_account) == Some(account@) && discovery_issues > 0
                    ==> r == Err::<SteamImport, StoreError>(StoreError::FilesNeedAttention)
                &&& opt_str(b.definitions.steam_account) == Some(account@) && discovery_issues == 0 ==> match match_scan(candidates@, game.appid) {
                    Err(e) => r == Err::<SteamImport, StoreError>(e),
                    Ok(ks) => if ks.len() > 1 {
                        r == Err::<SteamImport, StoreError>(StoreError::DuplicateSteamGame)
                    } else if ks.len() == 1 {
                        owned_update(candidates@[ks[0] as int].records, *game, r)
                    } else {
                        (r matches Ok(SteamImport::Create(n)) && imported_record(b.library_id, *game, b.definitions.default_status@, n)
                            && game_violation(n) is None)
                            || (r matches Err(StoreError::InvalidRecord(e)) && exists|n: GameRevision|
                            #![trigger game_violation(n)]
                            imported_record(b.library_id, *game, b.definitions.default_status@, n) && game_violation(n) == Some(e))
                    },
                }
            },
    {
        let manifest = match library.current() {
            Some(m) => m,
            None => {
                return Err(StoreError::NoCurrentLibrary);
            },
        };
        proof {
            assert(library_of(library.revisions@, library.heads@[0], *manifest));
            assert forall|b: LibraryRevision| #[trigger] library_of(library.revisions@, library.heads@[0], b) implies b == *manifest by {
                lemma_one_library(*library, library.heads@[0], b, *manifest);
            }
        }
        let bound = match &manifest.definitions.steam_account {
            Some(a) => crate::text::str_eq(a.as_str(), account),
            None => false,
        };
        if !bound {
            return Err(StoreError::AccountMismatch);
        }
        if discovery_issues > 0 {
            return Err(StoreError::FilesNeedAttention);
        }
        let found = match scan_candidates(candidates, game.appid) {
            Ok(v) => v,
            Err(e) => {
                return Err(e);
            },
        };
        proof {
            assert(candidates@.len() == candidates.len());
            lemma_scan_indices(candidates@, game.appid);
        }
        if found.len() > 1 {
            return Err(StoreError::DuplicateSteamGame);
        }
        let records = RecordStore { root: self.root.clone() };
        if found.len() == 1 {
            let k = found[0];
            proof {
                assert(found@[0] == k);
                assert(has_current(candidates@[k as int].records));
            }
            let current = match candidates[k].records.current() {
                Some(x) => x,
                None => {
                    return Err(StoreError::History(HistoryError::Changed));
                },
            };
            proof {
                let c = candidates@[k as int].records;
                assert(revision_of(c.revisions@, c.heads@[0], *current));
                assert forall|b: GameRevision| #[trigger] revision_of(c.revisions@, c.heads@[0], b) implies b == *current by {
                    lemma_one_revision(c, c.heads@[0], b, *current);
                }
            }
            let same = match &current.game.steam {
                Some(st) => st.app_id == game.appid && st.owned && st.playtime_minutes == game.playtime_forever,
                None => false,
            };
            if same {
                let n = current.dup();
                return Ok(SteamImport::Unchanged(n));
            }
            let ghost change = SteamChange::Owned { playtime_minutes: game.playtime_forever };
            let result = records.update_steam(&candidates[k].records, game.appid, SteamChange::Owned { playtime_minutes: game.playtime_forever });
            let out = match result {
                Ok(n) => Ok(SteamImport::Update(n)),
                Err(e) => Err(e),
            };
            proof {
                let c = candidates@[k as int].records;
                assert(found@[0] == k);
                assert(has_current(c));
                assert forall|b: GameRevision| #[trigger] revision_of(c.revisions@, c.heads@[0], b)
                    implies (!(b.game.steam matches Some(s) && s.app_id == game.appid) <==> out == Err::<SteamImport, StoreError>(StoreError::SteamMismatch)) by {
                    if out == Err::<SteamImport, StoreError>(StoreError::SteamMismatch) {
                        let b2 = choose|b2: GameRevision| #[trigger] revision_of(c.revisions@, c.heads@[0], b2)
                            && !(b2.game.steam matches Some(s) && s.app_id == game.appid);
                        lemma_one_revision(c, c.heads@[0], b, b2);
                    }
                }
                assert(owned_update(c, *game, out));
            }
            return out;
        }
        let mut data = GameData::new(game.name.as_str());
        data.personal.status = crate::records::dup_string(&manifest.definitions.default_status);
        data.steam = Some(SteamData {
            app_id: game.appid,
            description: None,
            playtime_minutes: game.playtime_forever,
            owned: true,
            metadata: None,
            extra: ExtraFields::new(),
        });
        let ghost given = data;
        assert(imported_data(*game, manifest.definitions.default_status@, given));
        let id = steam_game_id(manifest.library_id, game.appid);
        match records.create_identified(id, data) {
            Ok(n) => {
                proof {
                    lemma_imported(manifest.library_id, *game, manifest.definitions.default_status@, given, n);
                }
                Ok(SteamImport::Create(n))
            },
            Err(e) => {
                proof {
                    let v = e->InvalidRecord_0;
                    let n = choose|n: GameRevision| #[trigger] first_revision(id, n.revision_id, given, n) && game_violation(n) == Some(v)
                        && (n.revision_id >> 76u128) & 0xfu128 == 4;
                    lemma_imported(manifest.library_id, *game, manifest.definitions.default_status@, given, n);
                }
                Err(e)
            },
        }
    }
}

} // verus!

verus! {

/// The number that ASCII decimal digits spell.
pub open spec fn digits_value(s: Seq<u8>) -> int
    decreases s.len(),
{
    if s.len() == 0 {
        0
    } else {
        digits_value(s.drop_last()) * 10 + (s.last() - 48)
    }
}

proof fn lemma_digits_round_trip(n: nat)
    ensures
        digits_value(decimal_bytes(n)) == n,
        decimal_bytes(n).len() > 0,
    decreases n,
{
    if n >= 10 {
        lemma_digits_round_trip(n / 10);
        let d = decimal_bytes(n);
        assert(d.drop_last() == decimal_bytes(n / 10));
        assert(d.last() == (48 + n % 10) as u8);
        assert(((48 + n % 10) as u8) as int == 48 + n % 10);
        assert((n / 10) * 10 + n % 10 == n) by (nonlinear_arith);
        assert(digits_value(d) == digits_value(d.drop_last()) * 10 + (d.last() - 48));
    } else {
        let d = decimal_bytes(n);
        assert(d.drop_last() =~= Seq::<u8>::empty());
        assert(((48 + n) as u8) as int == 48 + n);
        assert(digits_value(d) == digits_value(d.drop_last()) * 10 + (d.last() - 48));
    }
}

/// Different Steam App IDs name different identities: two games of one library never
/// share the name their IDs are derived from.
pub proof fn law_steam_names_distinct(a: u32, b: u32)
    requires
        a != b,
    ensures
        steam_name(a) != steam_name(b),
{
    lemma_digits_round_trip(a as nat);
    lemma_digits_round_trip(b as nat);
    let prefix = seq![115u8, 116u8, 101u8, 97u8, 109u8, 58u8];
    if steam_name(a) == steam_name(b) {
        assert(steam_name(a).subrange(6, steam_name(a).len() as int) =~= decimal_bytes(a as nat));
        assert(steam_name(b).subrange(6, steam_name(b).len() as int) =~= decimal_bytes(b as nat));
    }
}

/// One game outcome of a bulk edit: the games saved, and those refused with the reason.
#[derive(Debug)]
pub struct Outcome {
    pub saved: Vec<GameRevision>,
    pub failed: Vec<(u128, String)>,
}

} // verus!

verus! {

/// A personal edit accepted on a scanned, complete history is a child of every head: once
/// published, it is the only head and the history stays complete, so it reads back as the
/// current revision.
pub proof fn law_saved_edit_is_the_only_head(snapshot: RevisionSnapshot<GameRevision>, expected: u128, personal: PersonalData, n: GameRevision, p: int)
    requires
        snapshot.heads@ == crate::revisions::head_ids(snapshot.revisions@),
        crate::revisions::complete_history(snapshot.revisions@),
        personal_outcome(snapshot, expected, personal, Ok(n)),
        !has_id(snapshot.revisions@, n.revision_id),
        0 <= p <= snapshot.revisions.len(),
    ensures
        crate::revisions::head_ids(snapshot.revisions@.insert(p, n)) == seq![n.revision_id],
        crate::revisions::complete_history(snapshot.revisions@.insert(p, n)),
{
    assert(n.parents@ == snapshot.heads@);
    crate::revisions::law_child_of_all_heads_is_sole_head(snapshot.revisions@, n, p);
}

} // verus!

verus! {

/// The sentence shown for a refused store operation.
pub open spec fn store_error_text(e: StoreError) -> Seq<char> {
    match e {
        StoreError::Unavailable => "Library folders are unavailable or initialization is incomplete"@,
        StoreError::History(HistoryError::NeedsAttention) => "Files need attention before anything is saved"@,
        StoreError::History(HistoryError::Changed) => "Record changed or has a conflict. Review the latest revisions"@,
        StoreError::ChooseConflict => "Choose one of the conflicting heads"@,
        StoreError::Archived => "Restore the archived game before editing"@,
        StoreError::InvalidRecord(r) => crate::records::record_error_text(r),
        StoreError::Library(l) => crate::library::library_error_text(l),
        StoreError::SteamMismatch => "This game is not linked to this Steam app"@,
        StoreError::NoCurrentLibrary => "Resolve library definitions before syncing"@,
        StoreError::AccountMismatch => "Steam account does not match this library"@,
        StoreError::FilesNeedAttention => "Library files need attention before importing"@,
        StoreError::UnreadableGames => "Unreadable game files prevent safe Steam matching"@,
        StoreError::SteamConflict => "Steam game has conflicting or incomplete versions"@,
        StoreError::DuplicateSteamGame => "Multiple games use this Steam App ID. Resolve the duplicate first"@,
    }
}

impl StoreError {
    pub fn message(&self) -> (r: String)
        ensures
            r@ == store_error_text(*self),
    {
        match self {
            StoreError::Unavailable => String::from_str("Library folders are unavailable or initialization is incomplete"),
            StoreError::History(HistoryError::NeedsAttention) => String::from_str("Files need attention before anything is saved"),
            StoreError::History(HistoryError::Changed) => String::from_str("Record changed or has a conflict. Review the latest revisions"),
            StoreError::ChooseConflict => String::from_str("Choose one of the conflicting heads"),
            StoreError::Archived => String::from_str("Restore the archived game before editing"),
            StoreError::InvalidRecord(r) => r.message(),
            StoreError::Library(l) => l.message(),
            StoreError::SteamMismatch => String::from_str("This game is not linked to this Steam app"),
            StoreError::NoCurrentLibrary => String::from_str("Resolve library definitions before syncing"),
            StoreError::AccountMismatch => String::from_str("Steam account does not match this library"),
            StoreError::FilesNeedAttention => String::from_str("Library files need attention before importing"),
            StoreError::UnreadableGames => String::from_str("Unreadable game files prevent safe Steam matching"),
            StoreError::SteamConflict => String::from_str("Steam game has conflicting or incomplete versions"),
            StoreError::DuplicateSteamGame => String::from_str("Multiple games use this Steam App ID. Resolve the duplicate first"),
        }
    }
}

} // verus!

verus! {

/// The detail stage a Steam change records as loaded: 0 for the description, 1 for the
/// reviews, 2 for the cover; an ownership update loads none.
pub open spec fn stage_of(change: SteamChange) -> int {
    match change {
        SteamChange::Owned { .. } => -1,
        SteamChange::Details { .. } => 0,
        SteamChange::Reviews { .. } => 1,
        SteamChange::Cover { .. } => 2,
    }
}

/// A game imported from Steam for the first time needs every detail stage: its
/// description, its reviews and its cover are all still to load.
pub proof fn law_fresh_import_needs_every_stage(library_id: u128, game: OwnedGame, status: Seq<char>, n: GameRevision, s: int)
    requires
        imported_record(library_id, game, status, n),
        0 <= s < 3,
    ensures
        crate::steam::stage_pending(n, s),
{
}

/// Recording a stage as loaded settles exactly that stage: after the change it is no longer
/// pending, and every other stage is pending exactly when it was before.
pub proof fn law_a_loaded_stage_settles_only_itself(change: SteamChange, o: GameRevision, n: GameRevision, so: SteamData, sn: SteamData, s: int)
    requires
        o.game.steam == Some(so),
        n.game.steam == Some(sn),
        steam_changed(change, so, sn),
        0 <= s < 3,
    ensures
        s == stage_of(change) ==> !crate::steam::stage_pending(n, s),
        s != stage_of(change) ==> (crate::steam::stage_pending(n, s) == crate::steam::stage_pending(o, s)),
{
    match change {
        SteamChange::Owned { .. } => {},
        _ => {
            let m = sn.metadata->0;
            let b = choose|b: SteamMetadata| #[trigger] base_metadata(so, b) && metadata_same(m, match change {
                SteamChange::Details { description, genres, release_year } =>
                    SteamMetadata { genres: genres, release_year: release_year, details_complete: true, ..b },
                SteamChange::Reviews { label, percent } =>
                    SteamMetadata { review_label: label, review_percent: percent, reviews_complete: true, ..b },
                SteamChange::Cover { path } => SteamMetadata { cover: Some(path), cover_complete: true, ..b },
                SteamChange::Owned { .. } => b,
            });
        },
    }
}

} // verus!

verus! {

/// A personal edit that a store saves carries the submitted values: the saved child has
/// exactly the submitted status, rating, favorite, tags, notes, overrides, collections and
/// hidden flag, and it is live and a child of the reviewed heads.
pub proof fn law_saved_edit_carries_the_submitted_values(snapshot: RevisionSnapshot<GameRevision>, expected: u128, personal: PersonalData, r: Result<GameRevision, StoreError>)
    requires
        personal_outcome(snapshot, expected, personal, r),
    ensures
        r matches Ok(n) ==> {
            &&& n.game.personal.status@ == personal.status@
            &&& n.game.personal.rating == personal.rating
            &&& n.game.personal.favorite == personal.favorite
            &&& crate::records::strs(n.game.personal.tags@) == crate::records::strs(personal.tags@)
            &&& n.game.personal.notes@ == personal.notes@
            &&& opt_str(n.game.personal.description) == opt_str(personal.description)
            &&& opt_str(n.game.personal.cover) == opt_str(personal.cover)
            &&& n.game.personal.collections@ == personal.collections@
            &&& n.game.personal.hidden == personal.hidden
            &&& !n.deleted
            &&& n.parents@ == snapshot.heads@
        },
{
    match r {
        Ok(n) => {
            let b = choose|b: GameRevision| #[trigger] revision_of(snapshot.revisions@, expected, b) && !b.deleted
                && personal_edit(b, personal, GameRevision { revision_id: b.revision_id, parents: b.parents, ..n })
                && n.parents@ == snapshot.heads@ && game_violation(n) is None && (n.revision_id >> 76u128) & 0xfu128 == 4;
            crate::records::law_personal_edit_carries_the_submitted_values(b, personal, GameRevision { revision_id: b.revision_id, parents: b.parents, ..n });
        },
        Err(_) => {},
    }
}

} // verus!
