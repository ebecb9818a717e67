//! The library as the desktop views show it: which games a scope, a search and the
//! filters let through, in which order and groups, and the one selection that the grid
//! and the inspector share. Selections are game IDs, so they survive sorting and filtering.
use vstd::prelude::*;
use vstd::string::*;

use crate::library::{first_status, StatusDefinition};
use crate::ordering::{lemma_order_opt, lemma_order_text, min_text, order_int, order_opt, order_text};
use crate::records::{revision_same, shown_description, strs, GameRevision};
use crate::settings::{GroupBy, LibraryDisplay, SortBy};
use crate::text::lowercase;

verus! {

/// One game as the views show it.
pub struct Game {
    pub id: u128,
    pub title: String,
    /// The bundled artwork for sample games.
    pub cover: String,
    pub description: String,
    /// Status key.
    pub status: String,
    pub status_label: String,
    /// Names of the collections the game is in, archived ones left out.
    pub collections: Vec<String>,
    /// Resolved cover file inside the library's `media/` folder.
    pub cover_path: Option<String>,
    /// Half-star units, from 1 to 10. None means unrated.
    pub rating: Option<u8>,
    pub tags: Vec<String>,
    pub playtime_minutes: u32,
    pub favorite: bool,
    /// The record the game was read from; sample games have none.
    pub record: Option<GameRevision>,
}

/// Which games the sidebar selects.
#[derive(Debug)]
pub enum Scope {
    All,
    Favorites,
    Hidden,
    Status(String),
    Collection(u128),
}

/// The game's record marks it hidden.
pub open spec fn is_hidden(g: Game) -> bool {
    g.record matches Some(r) && r.game.personal.hidden
}

/// The game's record puts it in collection `id`.
pub open spec fn in_collection(g: Game, id: u128) -> bool {
    g.record matches Some(r) && r.game.personal.collections@.contains(id)
}

/// Hidden games are only in the hidden scope, which holds nothing else.
pub open spec fn in_scope(scope: Scope, g: Game) -> bool {
    match scope {
        Scope::Hidden => is_hidden(g),
        Scope::All => !is_hidden(g),
        Scope::Favorites => !is_hidden(g) && g.favorite,
        Scope::Status(s) => !is_hidden(g) && g.status@ == s@,
        Scope::Collection(id) => !is_hidden(g) && in_collection(g, id),
    }
}

fn holds_u128(v: &Vec<u128>, x: u128) -> (r: bool)
    ensures
        r == v@.contains(x),
{
    let mut i: usize = 0;
    while i < v.len()
        invariant
            i <= v.len(),
            forall|k: int| 0 <= k < i ==> v@[k] != x,
        decreases v.len() - i,
    {
        if v[i] == x {
            assert(v@[i as int] == x);
            return true;
        }
        i += 1;
    }
    false
}

impl Game {
    fn hidden(&self) -> (r: bool)
        ensures
            r == is_hidden(*self),
    {
        match &self.record {
            Some(r) => r.game.personal.hidden,
            None => false,
        }
    }

    fn in_collection(&self, id: u128) -> (r: bool)
        ensures
            r == in_collection(*self, id),
    {
        match &self.record {
            Some(r) => holds_u128(&r.game.personal.collections, id),
            None => false,
        }
    }
}

impl Scope {
    pub fn contains(&self, game: &Game) -> (r: bool)
        ensures
            r == in_scope(*self, *game),
    {
        let hidden = game.hidden();
        match self {
            Scope::Hidden => hidden,
            Scope::All => !hidden,
            Scope::Favorites => !hidden && game.favorite,
            Scope::Status(s) => !hidden && crate::text::str_eq(game.status.as_str(), s.as_str()),
            Scope::Collection(id) => !hidden && game.in_collection(*id),
        }
    }
}

/// How many of `games` are in `scope`.
pub open spec fn scope_count(scope: Scope, games: Seq<Game>) -> nat
    decreases games.len(),
{
    if games.len() == 0 {
        0
    } else {
        scope_count(scope, games.drop_last()) + if in_scope(scope, games.last()) {
            1nat
        } else {
            0nat
        }
    }
}

/// `q` occurs in `s`.
pub open spec fn has_infix(s: Seq<char>, q: Seq<char>) -> bool {
    exists|i: int| 0 <= i <= s.len() - q.len() && #[trigger] s.subrange(i, i + q.len()) == q
}

/// `str::contains` for a text.
pub fn contains_text(s: &str, q: &str) -> (r: bool)
    ensures
        r == has_infix(s@, q@),
{
    let n = s.unicode_len();
    let m = q.unicode_len();
    if m > n {
        return false;
    }
    let mut i: usize = 0;
    while i <= n - m
        invariant
            n == s@.len(),
            m == q@.len(),
            m <= n,
            i <= n - m + 1,
            forall|k: int| 0 <= k < i ==> #[trigger] s@.subrange(k, k + m) != q@,
        decreases n - m + 1 - i,
    {
        let mut j: usize = 0;
        let mut same = true;
        while j < m
            invariant
                n == s@.len(),
                m == q@.len(),
                i + m <= n,
                j <= m,
                same == forall|x: int| 0 <= x < j ==> s@[i + x] == q@[x],
            decreases m - j,
        {
            if s.get_char(i + j) != q.get_char(j) {
                same = false;
            }
            j += 1;
        }
        if same {
            assert(s@.subrange(i as int, i + m) =~= q@);
            return true;
        }
        proof {
            let x = choose|x: int| 0 <= x < m && s@[i + x] != q@[x];
            assert(s@.subrange(i as int, i + m)[x] != q@[x]);
        }
        i += 1;
    }
    false
}

/// The rank of a status key: its position among the definitions, or last when unknown.
pub open spec fn status_rank(statuses: Seq<StatusDefinition>, key: Seq<char>) -> int {
    if exists|i: int| first_status(statuses, key, i) {
        choose|i: int| first_status(statuses, key, i)
    } else {
        usize::MAX as int
    }
}

/// What names compare by: the lowercased title.
pub open spec fn name_key(g: Game) -> Seq<char> {
    lowercase(g.title@)
}

/// What collections compare by: the smallest lowercased collection name.
pub open spec fn collection_key(g: Game) -> Option<Seq<char>> {
    min_text(g.collections@.map_values(|c: String| lowercase(c@)))
}

/// Comparison by the chosen sort key, ascending.
pub open spec fn primary(sort: SortBy, statuses: Seq<StatusDefinition>, a: Game, b: Game) -> int {
    match sort {
        SortBy::Name => order_text(name_key(a), name_key(b)),
        SortBy::Status => order_int(status_rank(statuses, a.status@), status_rank(statuses, b.status@)),
        SortBy::Hours => order_int(a.playtime_minutes as int, b.playtime_minutes as int),
        SortBy::Collection => order_opt(collection_key(a), collection_key(b)),
    }
}

/// The order of games `i` and `j` in the view: the chosen key in the chosen direction,
/// then the name, then the ID, then the position in the library.
pub open spec fn view_order(d: LibraryDisplay, statuses: Seq<StatusDefinition>, games: Seq<Game>, i: int, j: int) -> int {
    let p = primary(d.sort, statuses, games[i], games[j]);
    let p = if d.descending {
        -p
    } else {
        p
    };
    if p != 0 {
        p
    } else {
        let t = order_text(name_key(games[i]), name_key(games[j]));
        if t != 0 {
            t
        } else {
            let c = order_int(games[i].id as int, games[j].id as int);
            if c != 0 {
                c
            } else {
                order_int(i, j)
            }
        }
    }
}

proof fn lemma_primary(sort: SortBy, statuses: Seq<StatusDefinition>, a: Game, b: Game, c: Game)
    ensures
        primary(sort, statuses, a, b) == -primary(sort, statuses, b, a),
        primary(sort, statuses, a, b) < 0 && primary(sort, statuses, b, c) < 0 ==> primary(sort, statuses, a, c) < 0,
        primary(sort, statuses, a, b) == 0 ==> primary(sort, statuses, a, c) == primary(sort, statuses, b, c),
{
    match sort {
        SortBy::Name => {
            lemma_order_text(name_key(a), name_key(b), name_key(c));
            lemma_order_text(name_key(a), name_key(c), name_key(b));
            lemma_order_text(name_key(b), name_key(c), name_key(a));
        },
        SortBy::Collection => {
            lemma_order_opt(collection_key(a), collection_key(b), collection_key(c));
            lemma_order_opt(collection_key(a), collection_key(c), collection_key(b));
            lemma_order_opt(collection_key(b), collection_key(c), collection_key(a));
        },
        _ => {},
    }
}

/// The view order is a strict total order on positions.
pub proof fn lemma_view_order(d: LibraryDisplay, statuses: Seq<StatusDefinition>, games: Seq<Game>, i: int, j: int, k: int)
    ensures
        view_order(d, statuses, games, i, j) == -view_order(d, statuses, games, j, i),
        view_order(d, statuses, games, i, j) == 0 <==> i == j,
        view_order(d, statuses, games, i, j) < 0 && view_order(d, statuses, games, j, k) < 0 ==> view_order(d, statuses, games, i, k) < 0,
{
    let (a, b, c) = (games[i], games[j], games[k]);
    lemma_primary(d.sort, statuses, a, b, c);
    lemma_primary(d.sort, statuses, b, c, a);
    lemma_primary(d.sort, statuses, a, c, b);
    lemma_primary(d.sort, statuses, b, a, c);
    lemma_order_text(name_key(a), name_key(b), name_key(c));
    lemma_order_text(name_key(b), name_key(c), name_key(a));
    lemma_order_text(name_key(a), name_key(c), name_key(b));
}

} // verus!

verus! {

fn rank_of(statuses: &Vec<StatusDefinition>, key: &str) -> (r: usize)
    ensures
        r as int == status_rank(statuses@, key@),
{
    let mut i: usize = 0;
    while i < statuses.len()
        invariant
            i <= statuses.len(),
            forall|j: int| 0 <= j < i ==> #[trigger] statuses@[j].key@ != key@,
        decreases statuses.len() - i,
    {
        if crate::text::str_eq(statuses[i].key.as_str(), key) {
            proof {
                assert(first_status(statuses@, key@, i as int));
                let c = choose|c: int| first_status(statuses@, key@, c);
                if c < i {
                    assert(statuses@[c].key@ != key@);
                } else if c > i {
                    assert(statuses@[i as int].key@ != key@);
                }
            }
            return i;
        }
        i += 1;
    }
    proof {
        if exists|c: int| first_status(statuses@, key@, c) {
            let c = choose|c: int| first_status(statuses@, key@, c);
            assert(statuses@[c].key@ != key@);
        }
    }
    usize::MAX
}

pub open spec fn opt_text(a: Option<String>) -> Option<Seq<char>> {
    match a {
        Some(s) => Some(s@),
        None => None,
    }
}

fn collection_key_of(g: &Game) -> (r: Option<String>)
    ensures
        opt_text(r) == collection_key(*g),
{
    let ghost names = g.collections@.map_values(|c: String| lowercase(c@));
    let mut best: Option<String> = None;
    let mut i: usize = 0;
    while i < g.collections.len()
        invariant
            i <= g.collections.len(),
            names == g.collections@.map_values(|c: String| lowercase(c@)),
            opt_text(best) == min_text(names.subrange(0, i as int)),
        decreases g.collections.len() - i,
    {
        let lower = crate::text::to_lowercase(g.collections[i].as_str());
        proof {
            let s = names.subrange(0, i + 1);
            assert(s.drop_last() =~= names.subrange(0, i as int));
            assert(s.last() == lower@);
        }
        best = match best {
            None => Some(lower),
            Some(b) => if crate::ordering::compare_text(lower.as_str(), b.as_str()) < 0 {
                Some(lower)
            } else {
                Some(b)
            },
        };
        i += 1;
    }
    assert(names.subrange(0, g.collections.len() as int) =~= names);
    best
}

/// The comparison keys of one game, computed once per ordering.
struct SortKeys {
    name: String,
    collection: Option<String>,
    rank: usize,
}

fn keys_of(statuses: &Vec<StatusDefinition>, g: &Game) -> (k: SortKeys)
    ensures
        k.name@ == name_key(*g),
        opt_text(k.collection) == collection_key(*g),
        k.rank as int == status_rank(statuses@, g.status@),
{
    SortKeys {
        name: crate::text::to_lowercase(g.title.as_str()),
        collection: collection_key_of(g),
        rank: rank_of(statuses, g.status.as_str()),
    }
}

/// The keys of every game, in order.
spec fn keys_match(statuses: Seq<StatusDefinition>, games: Seq<Game>, keys: Seq<SortKeys>) -> bool {
    &&& keys.len() == games.len()
    &&& forall|i: int| 0 <= i < games.len() ==> {
        &&& (#[trigger] keys[i]).name@ == name_key(games[i])
        &&& opt_text(keys[i].collection) == collection_key(games[i])
        &&& keys[i].rank as int == status_rank(statuses, games[i].status@)
    }
}

fn optional_order(a: &Option<String>, b: &Option<String>) -> (r: i8)
    ensures
        r == order_opt(opt_text(*a), opt_text(*b)),
{
    match (a, b) {
        (None, None) => 0,
        (None, Some(_)) => -1,
        (Some(_), None) => 1,
        (Some(x), Some(y)) => crate::ordering::compare_text(x.as_str(), y.as_str()),
    }
}

fn int_order(a: u128, b: u128) -> (r: i8)
    ensures
        r == order_int(a as int, b as int),
{
    if a < b {
        -1
    } else if a == b {
        0
    } else {
        1
    }
}

/// Whether game `i` comes before game `j` in the view.
fn comes_before(d: LibraryDisplay, statuses: &Vec<StatusDefinition>, games: &Vec<Game>, keys: &Vec<SortKeys>, i: usize, j: usize) -> (r: bool)
    requires
        keys_match(statuses@, games@, keys@),
        i < games.len(),
        j < games.len(),
    ensures
        r == (view_order(d, statuses@, games@, i as int, j as int) < 0),
{
    let ki = &keys[i];
    let kj = &keys[j];
    assert(keys@[i as int] == *ki && keys@[j as int] == *kj);
    let p: i8 = match d.sort {
        SortBy::Name => crate::ordering::compare_text(ki.name.as_str(), kj.name.as_str()),
        SortBy::Status => int_order(ki.rank as u128, kj.rank as u128),
        SortBy::Hours => int_order(games[i].playtime_minutes as u128, games[j].playtime_minutes as u128),
        SortBy::Collection => optional_order(&ki.collection, &kj.collection),
    };
    proof {
        lemma_order_text(ki.name@, kj.name@, ki.name@);
    }
    let p: i8 = if d.descending {
        if p < 0 {
            1
        } else if p > 0 {
            -1
        } else {
            0
        }
    } else {
        p
    };
    if p != 0 {
        return p < 0;
    }
    let t = crate::ordering::compare_text(ki.name.as_str(), kj.name.as_str());
    if t != 0 {
        return t < 0;
    }
    let c = int_order(games[i].id, games[j].id);
    if c != 0 {
        return c < 0;
    }
    i < j
}

} // verus!

verus! {

/// One selection shared by the grid and the inspector, over the games of a library.
pub struct Library {
    pub games: Vec<Game>,
    /// Positions in `games` of the games shown, in view order.
    pub visible: Vec<usize>,
    pub selected: Option<u128>,
    pub name: String,
    pub statuses: Vec<StatusDefinition>,
    /// Sample games rather than a library folder.
    pub demo: bool,
    /// The folder and the definitions the games were read with.
    pub source: Option<(String, crate::library::LibraryRevision)>,
    /// The first problem that blocks edits, if any.
    pub write_issue: Option<String>,
    /// Games with conflicting edits, by ID, with the title to show.
    pub conflicts: Vec<(u128, String)>,
    pub media_version: u64,
    pub scope: Scope,
    pub show_hidden_games: bool,
    pub display: LibraryDisplay,
    pub filter_status: Option<String>,
    pub filter_collection: Option<u128>,
    pub filter_favorites: bool,
    /// Group labels with the visible slots of their games.
    pub groups: Vec<(String, Vec<usize>)>,
    /// The search, trimmed and lowercased.
    pub query: String,
    /// Lowercased title and tags of each game, which the search looks in.
    pub search_keys: Vec<String>,
}

/// Positions in strictly increasing view order.
pub open spec fn sorted_by(d: LibraryDisplay, statuses: Seq<StatusDefinition>, games: Seq<Game>, v: Seq<usize>) -> bool {
    forall|a: int, b: int| 0 <= a < b < v.len() ==> view_order(d, statuses, games, v[a] as int, v[b] as int) < 0
}

proof fn lemma_insert_sorted(d: LibraryDisplay, statuses: Seq<StatusDefinition>, games: Seq<Game>, v: Seq<usize>, p: int, x: usize)
    requires
        sorted_by(d, statuses, games, v),
        0 <= p <= v.len(),
        forall|q: int| 0 <= q < p ==> view_order(d, statuses, games, v[q] as int, x as int) < 0,
        p < v.len() ==> view_order(d, statuses, games, x as int, v[p] as int) < 0,
    ensures
        sorted_by(d, statuses, games, v.insert(p, x)),
{
    let w = v.insert(p, x);
    assert forall|a: int, b: int| 0 <= a < b < w.len() implies view_order(d, statuses, games, w[a] as int, w[b] as int) < 0 by {
        if b < p {
            assert(w[a] == v[a] && w[b] == v[b]);
        } else if b == p {
            assert(w[a] == v[a]);
        } else if a < p {
            assert(w[a] == v[a] && w[b] == v[b - 1]);
            if b - 1 > p {
                lemma_view_order(d, statuses, games, x as int, v[p] as int, v[b - 1] as int);
            }
            lemma_view_order(d, statuses, games, v[a] as int, x as int, v[b - 1] as int);
        } else if a == p {
            assert(w[b] == v[b - 1]);
            if b - 1 > p {
                lemma_view_order(d, statuses, games, x as int, v[p] as int, v[b - 1] as int);
            }
        } else {
            assert(w[a] == v[a - 1] && w[b] == v[b - 1]);
        }
    }
}

impl Library {
    pub open spec fn query_text(&self) -> Seq<char> {
        self.query@
    }

    pub open spec fn search_key(&self, j: int) -> Seq<char> {
        self.search_keys@[j]@
    }

    /// Every game has its search text.
    pub open spec fn wf(&self) -> bool {
        self.search_keys.len() == self.games.len()
    }

    /// Game `j` passes the scope, the search and every filter.
    pub open spec fn shows(&self, j: int) -> bool {
        let g = self.games@[j];
        &&& in_scope(self.scope, g)
        &&& has_infix(self.search_key(j), self.query_text())
        &&& (self.filter_status matches Some(s) ==> g.status@ == s@)
        &&& (self.filter_collection matches Some(id) ==> in_collection(g, id))
        &&& (self.filter_favorites ==> g.favorite)
    }

    fn passes(&self, j: usize) -> (r: bool)
        requires
            self.wf(),
            j < self.games.len(),
        ensures
            r == self.shows(j as int),
    {
        let g = &self.games[j];
        if !self.scope.contains(g) {
            return false;
        }
        if !contains_text(self.search_keys[j].as_str(), self.query.as_str()) {
            return false;
        }
        match &self.filter_status {
            Some(s) => {
                if !crate::text::str_eq(g.status.as_str(), s.as_str()) {
                    return false;
                }
            },
            None => {},
        }
        match self.filter_collection {
            Some(id) => {
                if !g.in_collection(id) {
                    return false;
                }
            },
            None => {},
        }
        !self.filter_favorites || g.favorite
    }

    /// The positions of the games shown, in view order.
    fn shown_in_order(&self) -> (v: Vec<usize>)
        requires
            self.wf(),
        ensures
            sorted_by(self.display, self.statuses@, self.games@, v@),
            forall|j: usize| #[trigger] v@.contains(j) <==> (j < self.games.len() && self.shows(j as int)),
            forall|a: int| 0 <= a < v.len() ==> v@[a] < self.games.len(),
    {
        let n = self.games.len();
        let mut keys: Vec<SortKeys> = Vec::new();
        let mut k: usize = 0;
        while k < n
            invariant
                n == self.games.len(),
                k <= n,
                keys.len() == k,
                forall|i: int| 0 <= i < k ==> {
                    &&& (#[trigger] keys@[i]).name@ == name_key(self.games@[i])
                    &&& opt_text(keys@[i].collection) == collection_key(self.games@[i])
                    &&& keys@[i].rank as int == status_rank(self.statuses@, self.games@[i].status@)
                },
            decreases n - k,
        {
            keys.push(keys_of(&self.statuses, &self.games[k]));
            k += 1;
        }
        assert(keys_match(self.statuses@, self.games@, keys@));
        let ghost d = self.display;
        let ghost st = self.statuses@;
        let ghost gs = self.games@;
        let mut v: Vec<usize> = Vec::new();
        let mut i: usize = 0;
        while i < n
            invariant
                n == self.games.len(),
                self.wf(),
                d == self.display,
                st == self.statuses@,
                gs == self.games@,
                keys_match(st, gs, keys@),
                i <= n,
                sorted_by(d, st, gs, v@),
                forall|a: int| 0 <= a < v.len() ==> v@[a] < i,
                forall|j: usize| #[trigger] v@.contains(j) <==> (j < i && self.shows(j as int)),
            decreases n - i,
        {
            if self.passes(i) {
                let mut p: usize = 0;
                while p < v.len() && !comes_before(self.display, &self.statuses, &self.games, &keys, i, v[p])
                    invariant
                        n == self.games.len(),
                        i < n,
                        keys_match(st, gs, keys@),
                        d == self.display,
                        st == self.statuses@,
                        gs == self.games@,
                        p <= v.len(),
                        forall|a: int| 0 <= a < v.len() ==> v@[a] < i,
                        forall|q: int| 0 <= q < p ==> view_order(d, st, gs, v@[q] as int, i as int) < 0,
                    decreases v.len() - p,
                {
                    proof {
                        lemma_view_order(d, st, gs, i as int, v@[p as int] as int, i as int);
                    }
                    p += 1;
                }
                let ghost before = v@;
                v.insert(p, i);
                proof {
                    lemma_insert_sorted(d, st, gs, before, p as int, i);
                    assert(v@ == before.insert(p as int, i));
                    assert forall|j: usize| #[trigger] v@.contains(j) <==> (j < i + 1 && self.shows(j as int)) by {
                        if v@.contains(j) {
                            let x = choose|x: int| 0 <= x < v.len() && v@[x] == j;
                            if x < p {
                                assert(before[x] == v@[x]);
                                assert(before.contains(j));
                            } else if x > p {
                                assert(before[x - 1] == v@[x]);
                                assert(before.contains(j));
                            }
                        }
                        if j < i + 1 && self.shows(j as int) {
                            if j == i {
                                assert(v@[p as int] == i);
                            } else {
                                assert(before.contains(j));
                                let x = choose|x: int| 0 <= x < before.len() && before[x] == j;
                                if x < p {
                                    assert(v@[x] == before[x]);
                                } else {
                                    assert(v@[x + 1] == before[x]);
                                }
                            }
                        }
                    }
                }
            } else {
                proof {
                    assert forall|j: usize| #[trigger] v@.contains(j) <==> (j < i + 1 && self.shows(j as int)) by {
                        if v@.contains(j) {
                            let x = choose|x: int| 0 <= x < v.len() && v@[x] == j;
                            assert(v@[x] < i);
                        }
                    }
                }
            }
            i += 1;
        }
        v
    }
}

} // verus!

verus! {

/// Groups as label texts with their slots.
pub open spec fn groups_view(g: Seq<(String, Vec<usize>)>) -> Seq<(Seq<char>, Seq<usize>)> {
    g.map_values(|x: (String, Vec<usize>)| (x.0@, x.1@))
}

/// The first `n` visible slots whose game has status `key`.
pub open spec fn status_slots(games: Seq<Game>, vis: Seq<usize>, key: Seq<char>, n: nat) -> Seq<usize>
    decreases n,
{
    if n == 0 {
        Seq::empty()
    } else {
        status_slots(games, vis, key, (n - 1) as nat) + if games[vis[n - 1] as int].status@ == key {
            seq![(n - 1) as usize]
        } else {
            Seq::empty()
        }
    }
}

/// The first `n` visible slots whose game has a status no definition has.
pub open spec fn unknown_slots(games: Seq<Game>, statuses: Seq<StatusDefinition>, vis: Seq<usize>, n: nat) -> Seq<usize>
    decreases n,
{
    if n == 0 {
        Seq::empty()
    } else {
        unknown_slots(games, statuses, vis, (n - 1) as nat) + if !crate::library::has_status_key(statuses, games[vis[n - 1] as int].status@) {
            seq![(n - 1) as usize]
        } else {
            Seq::empty()
        }
    }
}

/// One group per status definition, in definition order, for those with games.
pub open spec fn status_groups(games: Seq<Game>, statuses: Seq<StatusDefinition>, vis: Seq<usize>, m: nat) -> Seq<(Seq<char>, Seq<usize>)>
    decreases m,
{
    if m == 0 {
        Seq::empty()
    } else {
        let st = statuses[m - 1];
        let slots = status_slots(games, vis, st.key@, vis.len());
        status_groups(games, statuses, vis, (m - 1) as nat) + if slots.len() > 0 {
            seq![(st.label@, slots)]
        } else {
            Seq::empty()
        }
    }
}

/// Grouping by status: the defined statuses in order, then the games with other statuses.
pub open spec fn grouped_by_status(games: Seq<Game>, statuses: Seq<StatusDefinition>, vis: Seq<usize>) -> Seq<(Seq<char>, Seq<usize>)> {
    let unknown = unknown_slots(games, statuses, vis, vis.len());
    status_groups(games, statuses, vis, statuses.len()) + if unknown.len() > 0 {
        seq![("Other statuses"@, unknown)]
    } else {
        Seq::empty()
    }
}

fn slots_for_status(games: &Vec<Game>, vis: &Vec<usize>, key: &str) -> (r: Vec<usize>)
    requires
        forall|a: int| 0 <= a < vis.len() ==> vis@[a] < games.len(),
    ensures
        r@ == status_slots(games@, vis@, key@, vis.len() as nat),
{
    let mut r: Vec<usize> = Vec::new();
    let mut p: usize = 0;
    while p < vis.len()
        invariant
            p <= vis.len(),
            forall|a: int| 0 <= a < vis.len() ==> vis@[a] < games.len(),
            r@ == status_slots(games@, vis@, key@, p as nat),
        decreases vis.len() - p,
    {
        if crate::text::str_eq(games[vis[p]].status.as_str(), key) {
            r.push(p);
        }
        assert(r@ =~= status_slots(games@, vis@, key@, (p + 1) as nat));
        p += 1;
    }
    r
}

fn known_status(statuses: &Vec<StatusDefinition>, key: &str) -> (r: bool)
    ensures
        r == crate::library::has_status_key(statuses@, key@),
{
    let mut i: usize = 0;
    while i < statuses.len()
        invariant
            i <= statuses.len(),
            forall|j: int| 0 <= j < i ==> #[trigger] statuses@[j].key@ != key@,
        decreases statuses.len() - i,
    {
        if crate::text::str_eq(statuses[i].key.as_str(), key) {
            return true;
        }
        i += 1;
    }
    false
}

fn group_by_status(games: &Vec<Game>, statuses: &Vec<StatusDefinition>, vis: &Vec<usize>) -> (r: Vec<(String, Vec<usize>)>)
    requires
        forall|a: int| 0 <= a < vis.len() ==> vis@[a] < games.len(),
    ensures
        groups_view(r@) == grouped_by_status(games@, statuses@, vis@),
{
    let mut r: Vec<(String, Vec<usize>)> = Vec::new();
    let mut m: usize = 0;
    while m < statuses.len()
        invariant
            m <= statuses.len(),
            forall|a: int| 0 <= a < vis.len() ==> vis@[a] < games.len(),
            groups_view(r@) == status_groups(games@, statuses@, vis@, m as nat),
        decreases statuses.len() - m,
    {
        let slots = slots_for_status(games, vis, statuses[m].key.as_str());
        if slots.len() > 0 {
            r.push((statuses[m].label.clone(), slots));
        }
        assert(groups_view(r@) =~= status_groups(games@, statuses@, vis@, (m + 1) as nat));
        m += 1;
    }
    let mut unknown: Vec<usize> = Vec::new();
    let mut p: usize = 0;
    while p < vis.len()
        invariant
            p <= vis.len(),
            forall|a: int| 0 <= a < vis.len() ==> vis@[a] < games.len(),
            unknown@ == unknown_slots(games@, statuses@, vis@, p as nat),
        decreases vis.len() - p,
    {
        if !known_status(statuses, games[vis[p]].status.as_str()) {
            unknown.push(p);
        }
        assert(unknown@ =~= unknown_slots(games@, statuses@, vis@, (p + 1) as nat));
        p += 1;
    }
    let ghost before = groups_view(r@);
    if unknown.len() > 0 {
        let label = String::from_str("Other statuses");
        proof {
            reveal_strlit("Other statuses");
        }
        r.push((label, unknown));
    }
    assert(groups_view(r@) =~= grouped_by_status(games@, statuses@, vis@));
    r
}

} // verus!

verus! {

/// How often `name` is among the collection names `cols`.
pub open spec fn name_count(cols: Seq<String>, name: Seq<char>) -> nat
    decreases cols.len(),
{
    if cols.len() == 0 {
        0
    } else {
        name_count(cols.drop_last(), name) + if cols.last()@ == name {
            1nat
        } else {
            0nat
        }
    }
}

/// Slot `p`, `c` times.
pub open spec fn repeat_slot(p: usize, c: nat) -> Seq<usize> {
    Seq::new(c, |_i: int| p)
}

/// The first `n` visible slots, each as often as its game names collection `name`.
pub open spec fn name_slots(games: Seq<Game>, vis: Seq<usize>, name: Seq<char>, n: nat) -> Seq<usize>
    decreases n,
{
    if n == 0 {
        Seq::empty()
    } else {
        name_slots(games, vis, name, (n - 1) as nat) + repeat_slot(
            (n - 1) as usize,
            name_count(games[vis[n - 1] as int].collections@, name),
        )
    }
}

/// The first `n` visible slots whose game is in no collection.
pub open spec fn empty_slots(games: Seq<Game>, vis: Seq<usize>, n: nat) -> Seq<usize>
    decreases n,
{
    if n == 0 {
        Seq::empty()
    } else {
        empty_slots(games, vis, (n - 1) as nat) + if games[vis[n - 1] as int].collections.len() == 0 {
            seq![(n - 1) as usize]
        } else {
            Seq::empty()
        }
    }
}

/// One of the first `n` visible games names collection `name`.
pub open spec fn named_in(games: Seq<Game>, vis: Seq<usize>, name: Seq<char>, n: nat) -> bool {
    exists|p: int, k: int|
        0 <= p < n && 0 <= k < games[vis[p] as int].collections.len() && #[trigger] games[vis[p] as int].collections@[k]@ == name
}

/// Grouping by collection: one group per collection name, in name order, holding each
/// visible slot as often as its game names the collection; then the games in none.
pub open spec fn grouped_by_collection(games: Seq<Game>, vis: Seq<usize>, g: Seq<(Seq<char>, Seq<usize>)>) -> bool {
    let e = empty_slots(games, vis, vis.len());
    let k = if e.len() > 0 {
        g.len() - 1
    } else {
        g.len() as int
    };
    &&& k >= 0
    &&& e.len() > 0 ==> g.last() == ("No collection"@, e)
    &&& forall|a: int, b: int| 0 <= a < b < k ==> order_text(g[a].0, g[b].0) < 0
    &&& forall|a: int| 0 <= a < k ==> (#[trigger] g[a]).1 == name_slots(games, vis, g[a].0, vis.len())
    &&& forall|name: Seq<char>| named_in(games, vis, name, vis.len()) <==> exists|a: int| 0 <= a < k && (#[trigger] g[a]).0 == name
}

/// The names of the groups so far, strictly increasing.
spec fn names_sorted(g: Seq<(Seq<char>, Seq<usize>)>) -> bool {
    forall|a: int, b: int| 0 <= a < b < g.len() ==> order_text(g[a].0, g[b].0) < 0
}

} // verus!

verus! {

proof fn lemma_count_take(cols: Seq<String>, k: int, name: Seq<char>)
    requires
        0 <= k < cols.len(),
    ensures
        name_count(cols.take(k + 1), name) == name_count(cols.take(k), name) + if cols[k]@ == name {
            1nat
        } else {
            0nat
        },
{
    assert(cols.take(k + 1).drop_last() =~= cols.take(k));
}

proof fn lemma_count_zero(cols: Seq<String>, name: Seq<char>)
    requires
        forall|k: int| 0 <= k < cols.len() ==> (#[trigger] cols[k])@ != name,
    ensures
        name_count(cols, name) == 0,
    decreases cols.len(),
{
    if cols.len() > 0 {
        let d = cols.drop_last();
        assert forall|k: int| 0 <= k < d.len() implies (#[trigger] d[k])@ != name by {
            assert(d[k] == cols[k]);
        }
        lemma_count_zero(d, name);
        assert(cols[cols.len() - 1]@ != name);
    }
}

proof fn lemma_slots_empty(games: Seq<Game>, vis: Seq<usize>, name: Seq<char>, n: nat)
    requires
        !named_in(games, vis, name, n),
    ensures
        name_slots(games, vis, name, n) == Seq::<usize>::empty(),
    decreases n,
{
    if n > 0 {
        assert(!named_in(games, vis, name, (n - 1) as nat)) by {
            if named_in(games, vis, name, (n - 1) as nat) {
                let (p, k) = choose|p: int, k: int|
                    0 <= p < n - 1 && 0 <= k < games[vis[p] as int].collections.len() && #[trigger] games[vis[p] as int].collections@[k]@ == name;
                assert(games[vis[p] as int].collections@[k]@ == name);
            }
        }
        lemma_slots_empty(games, vis, name, (n - 1) as nat);
        let cols = games[vis[n - 1] as int].collections@;
        assert forall|k: int| 0 <= k < cols.len() implies (#[trigger] cols[k])@ != name by {
            if cols[k]@ == name {
                assert(games[vis[n - 1] as int].collections@[k]@ == name);
            }
        }
        lemma_count_zero(cols, name);
        assert(name_slots(games, vis, name, n) =~= Seq::<usize>::empty());
    }
}

proof fn lemma_names_insert(g: Seq<(Seq<char>, Seq<usize>)>, q: int, x: (Seq<char>, Seq<usize>))
    requires
        names_sorted(g),
        0 <= q <= g.len(),
        forall|a: int| 0 <= a < q ==> order_text(g[a].0, x.0) < 0,
        q < g.len() ==> order_text(x.0, g[q].0) < 0,
    ensures
        names_sorted(g.insert(q, x)),
{
    let w = g.insert(q, x);
    assert forall|a: int, b: int| 0 <= a < b < w.len() implies order_text(w[a].0, w[b].0) < 0 by {
        if b < q {
            assert(w[a] == g[a] && w[b] == g[b]);
        } else if b == q {
            assert(w[a] == g[a]);
        } else if a < q {
            assert(w[a] == g[a] && w[b] == g[b - 1]);
            if b - 1 > q {
                lemma_order_text(x.0, g[q].0, g[b - 1].0);
            }
            lemma_order_text(g[a].0, x.0, g[b - 1].0);
        } else if a == q {
            assert(w[b] == g[b - 1]);
            if b - 1 > q {
                lemma_order_text(x.0, g[q].0, g[b - 1].0);
            }
        } else {
            assert(w[a] == g[a - 1] && w[b] == g[b - 1]);
        }
    }
}

/// Slots of group names while slot `p` is read up to its name `k`.
spec fn partial_slots(games: Seq<Game>, vis: Seq<usize>, name: Seq<char>, p: int, k: int) -> Seq<usize> {
    name_slots(games, vis, name, p as nat) + repeat_slot(p as usize, name_count(games[vis[p] as int].collections@.take(k), name))
}

/// Names met so far: in the first `p` slots, or among the first `k` names of slot `p`.
spec fn named_upto(games: Seq<Game>, vis: Seq<usize>, name: Seq<char>, p: int, k: int) -> bool {
    named_in(games, vis, name, p as nat) || exists|kk: int| 0 <= kk < k && (#[trigger] games[vis[p] as int].collections@[kk])@ == name
}

} // verus!

verus! {

/// Some group has the name `x`.
pub open spec fn has_group(g: Seq<(Seq<char>, Seq<usize>)>, x: Seq<char>) -> bool {
    exists|a: int| 0 <= a < g.len() && (#[trigger] g[a]).0 == x
}

/// Adds slot `p` to the group of collection `name`, creating the group in name order.
fn add_to_group(named: &mut Vec<(String, Vec<usize>)>, name: &String, p: usize)
    requires
        names_sorted(groups_view(old(named)@)),
    ensures
        names_sorted(groups_view(final(named)@)),
        forall|x: Seq<char>| #[trigger] has_group(groups_view(final(named)@), x) <==> (x == name@ || has_group(groups_view(old(named)@), x)),
        forall|a: int| 0 <= a < final(named).len() ==> {
            let g = #[trigger] groups_view(final(named)@)[a];
            if g.0 == name@ {
                exists|b: int| 0 <= b < old(named).len() && groups_view(old(named)@)[b].0 == name@ && g.1 == groups_view(old(named)@)[b].1.push(p)
                    || (g.1 == seq![p] && !exists|b: int| 0 <= b < old(named).len() && groups_view(old(named)@)[b].0 == name@)
            } else {
                exists|b: int| 0 <= b < old(named).len() && groups_view(old(named)@)[b] == g
            }
        },
{
    let ghost g0 = groups_view(named@);
    let mut q: usize = 0;
    while q < named.len() && crate::ordering::compare_text(named[q].0.as_str(), name.as_str()) < 0
        invariant
            g0 == groups_view(named@),
            q <= named.len(),
            forall|a: int| 0 <= a < q ==> order_text(g0[a].0, name@) < 0,
        decreases named.len() - q,
    {
        q += 1;
    }
    proof {
        lemma_order_text(name@, name@, name@);
    }
    if q < named.len() && crate::ordering::compare_text(named[q].0.as_str(), name.as_str()) == 0 {
        proof {
            lemma_order_text(g0[q as int].0, name@, name@);
        }
        let (key, mut slots) = named.remove(q);
        slots.push(p);
        named.insert(q, (key, slots));
        proof {
            let g1 = groups_view(named@);
            assert(g1 =~= g0.update(q as int, (g0[q as int].0, g0[q as int].1.push(p))));
            assert(names_sorted(g1)) by {
                assert forall|a: int, b: int| 0 <= a < b < g1.len() implies order_text(g1[a].0, g1[b].0) < 0 by {
                    assert(g1[a].0 == g0[a].0 && g1[b].0 == g0[b].0);
                }
            }
            assert forall|a: int| 0 <= a < g1.len() implies {
                let g = #[trigger] g1[a];
                if g.0 == name@ {
                    exists|b: int| 0 <= b < g0.len() && g0[b].0 == name@ && g.1 == g0[b].1.push(p)
                        || (g.1 == seq![p] && !exists|b: int| 0 <= b < g0.len() && g0[b].0 == name@)
                } else {
                    exists|b: int| 0 <= b < g0.len() && g0[b] == g
                }
            } by {
                if a != q {
                    assert(g1[a] == g0[a]);
                    if g1[a].0 == name@ {
                        if a < q {
                            assert(order_text(g0[a].0, name@) < 0);
                        } else {
                            lemma_order_text(g0[q as int].0, g0[a].0, name@);
                            assert(order_text(g0[q as int].0, g0[a].0) < 0);
                        }
                    }
                }
            }
            assert forall|x: Seq<char>| #[trigger] has_group(g1, x) <==> (x == name@ || has_group(g0, x)) by {
                if exists|a: int| 0 <= a < g1.len() && (#[trigger] g1[a]).0 == x {
                    let a = choose|a: int| 0 <= a < g1.len() && (#[trigger] g1[a]).0 == x;
                    assert(g0[a].0 == x);
                }
                if x == name@ {
                    assert(g1[q as int].0 == x);
                }
                if exists|a: int| 0 <= a < g0.len() && (#[trigger] g0[a]).0 == x {
                    let a = choose|a: int| 0 <= a < g0.len() && (#[trigger] g0[a]).0 == x;
                    assert(g1[a].0 == x);
                }
            }
        }
    } else {
        proof {
            if q < named.len() {
                lemma_order_text(g0[q as int].0, name@, name@);
                lemma_order_text(name@, g0[q as int].0, name@);
            }
            assert(!exists|b: int| 0 <= b < g0.len() && g0[b].0 == name@) by {
                if exists|b: int| 0 <= b < g0.len() && g0[b].0 == name@ {
                    let b = choose|b: int| 0 <= b < g0.len() && g0[b].0 == name@;
                    if b < q {
                        assert(order_text(g0[b].0, name@) < 0);
                    } else if b > q {
                        lemma_order_text(name@, g0[q as int].0, g0[b].0);
                        assert(order_text(g0[q as int].0, g0[b].0) < 0);
                    }
                }
            }
        }
        let slots = vec![p];
        assert(slots@ =~= seq![p]);
        let key = name.clone();
        assert(key@ == name@);
        named.insert(q, (key, slots));
        proof {
            let g1 = groups_view(named@);
            let x = (name@, seq![p]);
            assert(g1 =~= g0.insert(q as int, x));
            lemma_names_insert(g0, q as int, x);
            assert forall|a: int| 0 <= a < g1.len() implies {
                let g = #[trigger] g1[a];
                if g.0 == name@ {
                    exists|b: int| 0 <= b < g0.len() && g0[b].0 == name@ && g.1 == g0[b].1.push(p)
                        || (g.1 == seq![p] && !exists|b: int| 0 <= b < g0.len() && g0[b].0 == name@)
                } else {
                    exists|b: int| 0 <= b < g0.len() && g0[b] == g
                }
            } by {
                if a < q {
                    assert(g1[a] == g0[a]);
                } else if a > q {
                    assert(g1[a] == g0[a - 1]);
                }
            }
            assert forall|y: Seq<char>| #[trigger] has_group(g1, y) <==> (y == name@ || has_group(g0, y)) by {
                if exists|a: int| 0 <= a < g1.len() && (#[trigger] g1[a]).0 == y {
                    let a = choose|a: int| 0 <= a < g1.len() && (#[trigger] g1[a]).0 == y;
                    if a < q {
                        assert(g0[a].0 == y);
                    } else if a > q {
                        assert(g0[a - 1].0 == y);
                    }
                }
                if y == name@ {
                    assert(g1[q as int].0 == y);
                }
                if exists|a: int| 0 <= a < g0.len() && (#[trigger] g0[a]).0 == y {
                    let a = choose|a: int| 0 <= a < g0.len() && (#[trigger] g0[a]).0 == y;
                    if a < q {
                        assert(g1[a].0 == y);
                    } else {
                        assert(g1[a + 1].0 == y);
                    }
                }
            }
        }
    }
}

} // verus!

verus! {

proof fn lemma_named_step(games: Seq<Game>, vis: Seq<usize>, x: Seq<char>, p: int)
    requires
        0 <= p < vis.len(),
    ensures
        named_upto(games, vis, x, p, games[vis[p] as int].collections.len() as int) == named_in(games, vis, x, (p + 1) as nat),
{
    let cols = games[vis[p] as int].collections@;
    if named_in(games, vis, x, (p + 1) as nat) {
        let (q, k) = choose|q: int, k: int|
            0 <= q < p + 1 && 0 <= k < games[vis[q] as int].collections.len() && #[trigger] games[vis[q] as int].collections@[k]@ == x;
        if q < p {
            assert(named_in(games, vis, x, p as nat));
        } else {
            assert(cols[k]@ == x);
        }
    }
    if named_in(games, vis, x, p as nat) {
        let (q, k) = choose|q: int, k: int|
            0 <= q < p && 0 <= k < games[vis[q] as int].collections.len() && #[trigger] games[vis[q] as int].collections@[k]@ == x;
        assert(games[vis[q] as int].collections@[k]@ == x);
    }
    if exists|kk: int| 0 <= kk < cols.len() && (#[trigger] games[vis[p] as int].collections@[kk])@ == x {
        let kk = choose|kk: int| 0 <= kk < cols.len() && (#[trigger] games[vis[p] as int].collections@[kk])@ == x;
        assert(games[vis[p] as int].collections@[kk]@ == x);
    }
}

fn group_by_collection(games: &Vec<Game>, vis: &Vec<usize>) -> (r: Vec<(String, Vec<usize>)>)
    requires
        forall|a: int| 0 <= a < vis.len() ==> vis@[a] < games.len(),
    ensures
        grouped_by_collection(games@, vis@, groups_view(r@)),
{
    let ghost gs = games@;
    let ghost vs = vis@;
    let mut named: Vec<(String, Vec<usize>)> = Vec::new();
    let mut empty: Vec<usize> = Vec::new();
    let mut p: usize = 0;
    while p < vis.len()
        invariant
            gs == games@,
            vs == vis@,
            p <= vis.len(),
            forall|a: int| 0 <= a < vis.len() ==> vis@[a] < games.len(),
            names_sorted(groups_view(named@)),
            forall|a: int| 0 <= a < named.len() ==> (#[trigger] groups_view(named@)[a]).1 == name_slots(gs, vs, groups_view(named@)[a].0, p as nat),
            forall|x: Seq<char>| #[trigger] has_group(groups_view(named@), x) <==> named_in(gs, vs, x, p as nat),
            empty@ == empty_slots(gs, vs, p as nat),
        decreases vis.len() - p,
    {
        let cols = &games[vis[p]].collections;
        if cols.len() == 0 {
            empty.push(p);
        }
        assert(empty@ =~= empty_slots(gs, vs, (p + 1) as nat));
        proof {
            assert forall|a: int| 0 <= a < named.len() implies (#[trigger] groups_view(named@)[a]).1 == partial_slots(gs, vs, groups_view(named@)[a].0, p as int, 0) by {
                let nm = groups_view(named@)[a].0;
                assert(cols@.take(0) =~= Seq::<String>::empty());
                assert(name_slots(gs, vs, nm, p as nat) + repeat_slot(p, 0) =~= name_slots(gs, vs, nm, p as nat));
            }
            assert forall|x: Seq<char>| #[trigger] has_group(groups_view(named@), x) <==> named_upto(gs, vs, x, p as int, 0) by {}
        }
        let mut k: usize = 0;
        while k < cols.len()
            invariant
                gs == games@,
                vs == vis@,
                p < vis.len(),
                forall|a: int| 0 <= a < vis.len() ==> vis@[a] < games.len(),
                cols@ == gs[vs[p as int] as int].collections@,
                k <= cols.len(),
                names_sorted(groups_view(named@)),
                forall|a: int| 0 <= a < named.len() ==> (#[trigger] groups_view(named@)[a]).1 == partial_slots(gs, vs, groups_view(named@)[a].0, p as int, k as int),
                forall|x: Seq<char>| #[trigger] has_group(groups_view(named@), x) <==> named_upto(gs, vs, x, p as int, k as int),
            decreases cols.len() - k,
        {
            let ghost g0 = groups_view(named@);
            let ghost name = cols@[k as int]@;
            add_to_group(&mut named, &cols[k], p);
            proof {
                let g1 = groups_view(named@);
                assert forall|a: int| 0 <= a < named.len() implies (#[trigger] groups_view(named@)[a]).1 == partial_slots(gs, vs, groups_view(named@)[a].0, p as int, k + 1) by {
                    let g = g1[a];
                    lemma_count_take(cols@, k as int, g.0);
                    if g.0 == name {
                        if exists|b: int| 0 <= b < g0.len() && g0[b].0 == name && g.1 == g0[b].1.push(p) {
                            let b = choose|b: int| 0 <= b < g0.len() && g0[b].0 == name && g.1 == g0[b].1.push(p);
                            assert(g0[b].1 == partial_slots(gs, vs, g0[b].0, p as int, k as int));
                            let c = name_count(cols@.take(k as int), name);
                            assert(repeat_slot(p, c + 1) =~= repeat_slot(p, c).push(p));
                            assert(partial_slots(gs, vs, name, p as int, k + 1) =~= partial_slots(gs, vs, name, p as int, k as int).push(p));
                        } else {
                            assert(g.1 == seq![p]);
                            assert(!has_group(g0, name)) by {
                                if has_group(g0, name) {
                                    let b = choose|b: int| 0 <= b < g0.len() && (#[trigger] g0[b]).0 == name;
                                }
                            }
                            assert(!named_upto(gs, vs, name, p as int, k as int));
                            lemma_slots_empty(gs, vs, name, p as nat);
                            let t = cols@.take(k as int);
                            assert forall|kk: int| 0 <= kk < t.len() implies (#[trigger] t[kk])@ != name by {
                                assert(t[kk] == gs[vs[p as int] as int].collections@[kk]);
                            }
                            lemma_count_zero(t, name);
                            assert(partial_slots(gs, vs, name, p as int, k + 1) =~= seq![p]);
                        }
                    } else {
                        let b = choose|b: int| 0 <= b < g0.len() && g0[b] == g;
                        assert(g0[b].1 == partial_slots(gs, vs, g0[b].0, p as int, k as int));
                    }
                }
                assert forall|x: Seq<char>| #[trigger] has_group(groups_view(named@), x) <==> named_upto(gs, vs, x, p as int, k + 1) by {
                    assert(has_group(g0, x) <==> named_upto(gs, vs, x, p as int, k as int));
                    if named_upto(gs, vs, x, p as int, k + 1) && !named_in(gs, vs, x, p as nat) {
                        let kk = choose|kk: int| 0 <= kk < k + 1 && (#[trigger] gs[vs[p as int] as int].collections@[kk])@ == x;
                        if kk < k {
                            assert(named_upto(gs, vs, x, p as int, k as int));
                        }
                    }
                    if x == name {
                        assert(gs[vs[p as int] as int].collections@[k as int]@ == x);
                    }
                    if named_upto(gs, vs, x, p as int, k as int) && !named_in(gs, vs, x, p as nat) {
                        let kk = choose|kk: int| 0 <= kk < k && (#[trigger] gs[vs[p as int] as int].collections@[kk])@ == x;
                        assert(gs[vs[p as int] as int].collections@[kk]@ == x);
                    }
                }
            }
            k += 1;
        }
        proof {
            assert(cols@.take(cols.len() as int) =~= cols@);
            assert forall|a: int| 0 <= a < named.len() implies (#[trigger] groups_view(named@)[a]).1 == name_slots(gs, vs, groups_view(named@)[a].0, (p + 1) as nat) by {}
            assert forall|x: Seq<char>| #[trigger] has_group(groups_view(named@), x) <==> named_in(gs, vs, x, (p + 1) as nat) by {
                lemma_named_step(gs, vs, x, p as int);
            }
        }
        p += 1;
    }
    let ghost named_view = groups_view(named@);
    let ghost n0 = named.len();
    if empty.len() > 0 {
        let label = String::from_str("No collection");
        named.push((label, empty));
    }
    proof {
        let g = groups_view(named@);
        assert forall|a: int| 0 <= a < n0 implies (#[trigger] g[a]) == named_view[a] by {}
        assert forall|x: Seq<char>| named_in(gs, vs, x, vis.len() as nat) <==> exists|a: int| 0 <= a < n0 && (#[trigger] g[a]).0 == x by {
            assert(has_group(named_view, x) <==> named_in(gs, vs, x, vis.len() as nat));
            if has_group(named_view, x) {
                let a = choose|a: int| 0 <= a < named_view.len() && (#[trigger] named_view[a]).0 == x;
                assert(g[a].0 == x);
            }
            if exists|a: int| 0 <= a < n0 && (#[trigger] g[a]).0 == x {
                let a = choose|a: int| 0 <= a < n0 && (#[trigger] g[a]).0 == x;
                assert(named_view[a].0 == x);
            }
        }
    }
    named
}

} // verus!

verus! {

/// Some visible slot shows the game with this ID.
pub open spec fn slot_shows(games: Seq<Game>, vis: Seq<usize>, id: u128) -> bool {
    exists|p: int| 0 <= p < vis.len() && (#[trigger] games[vis[p] as int]).id == id
}

/// The groups the display asks for over the visible slots.
pub open spec fn grouped(d: LibraryDisplay, games: Seq<Game>, statuses: Seq<StatusDefinition>, vis: Seq<usize>, g: Seq<(Seq<char>, Seq<usize>)>) -> bool {
    match d.group {
        GroupBy::Ungrouped => g.len() == 0,
        GroupBy::Status => g == grouped_by_status(games, statuses, vis),
        GroupBy::Collections => grouped_by_collection(games, vis, g),
    }
}

impl Library {
    /// Both hold the same games, definitions, display choices, scope, search and filters.
    pub open spec fn same_inputs(&self, other: &Library) -> bool {
        &&& self.games@ == other.games@
        &&& self.statuses@ == other.statuses@
        &&& self.name@ == other.name@
        &&& self.demo == other.demo
        &&& self.source == other.source
        &&& self.write_issue == other.write_issue
        &&& self.conflicts@ == other.conflicts@
        &&& self.media_version == other.media_version
        &&& self.scope == other.scope
        &&& self.show_hidden_games == other.show_hidden_games
        &&& self.display == other.display
        &&& self.filter_status == other.filter_status
        &&& self.filter_collection == other.filter_collection
        &&& self.filter_favorites == other.filter_favorites
        &&& self.query@ == other.query@
        &&& self.search_keys@ == other.search_keys@
    }

    /// What a recomputation gives: the games shown in view order, their groups, and the
    /// selection kept only while its game is shown.
    pub open spec fn recomputed(&self, before: Option<u128>) -> bool {
        &&& sorted_by(self.display, self.statuses@, self.games@, self.visible@)
        &&& forall|j: usize| #[trigger] self.visible@.contains(j) <==> (j < self.games.len() && self.shows(j as int))
        &&& grouped(self.display, self.games@, self.statuses@, self.visible@, groups_view(self.groups@))
        &&& self.selected == match before {
            Some(id) => if slot_shows(self.games@, self.visible@, id) {
                Some(id)
            } else {
                None
            },
            None => None,
        }
    }

    /// Shows the games that pass the scope, the search and the filters, in view order,
    /// groups them, and drops a selection that is no longer shown.
    pub fn recompute(&mut self)
        requires
            old(self).wf(),
        ensures
            final(self).wf(),
            final(self).same_inputs(&*old(self)),
            final(self).recomputed(old(self).selected),
    {
        let v = self.shown_in_order();
        self.visible = v;
        self.groups = match self.display.group {
            GroupBy::Ungrouped => Vec::new(),
            GroupBy::Status => group_by_status(&self.games, &self.statuses, &self.visible),
            GroupBy::Collections => group_by_collection(&self.games, &self.visible),
        };
        if self.selected_slot().is_none() {
            self.selected = None;
        }
    }

    /// The visible slot of the selected game.
    pub fn selected_slot(&self) -> (r: Option<usize>)
        requires
            forall|a: int| 0 <= a < self.visible.len() ==> self.visible@[a] < self.games.len(),
        ensures
            match r {
                Some(p) => p < self.visible.len() && self.selected == Some(self.games@[self.visible@[p as int] as int].id)
                    && forall|q: int| 0 <= q < p ==> self.selected != Some(#[trigger] self.games@[self.visible@[q] as int].id),
                None => !(self.selected matches Some(id) && slot_shows(self.games@, self.visible@, id)),
            },
    {
        let id = match self.selected {
            Some(id) => id,
            None => {
                return None;
            },
        };
        let mut p: usize = 0;
        while p < self.visible.len()
            invariant
                self.selected == Some(id),
                p <= self.visible.len(),
                forall|a: int| 0 <= a < self.visible.len() ==> self.visible@[a] < self.games.len(),
                forall|q: int| 0 <= q < p ==> (#[trigger] self.games@[self.visible@[q] as int]).id != id,
            decreases self.visible.len() - p,
        {
            if self.games[self.visible[p]].id == id {
                return Some(p);
            }
            p += 1;
        }
        None
    }
}

} // verus!

verus! {

/// The slot a selection moves to from slot `s` by `delta`, within the `n` visible slots.
pub open spec fn stepped(s: int, delta: int, n: int) -> int {
    let t = s + delta;
    if t < 0 {
        0
    } else if t > n - 1 {
        n - 1
    } else {
        t
    }
}

/// The first game with this ID.
pub open spec fn first_with_id(games: Seq<Game>, id: u128, i: int) -> bool {
    0 <= i < games.len() && games[i].id == id && forall|j: int| 0 <= j < i ==> (#[trigger] games[j]).id != id
}

impl Library {
    /// Every game has its search text and every visible position is a game.
    pub open spec fn view_ok(&self) -> bool {
        &&& self.wf()
        &&& forall|a: int| 0 <= a < self.visible.len() ==> self.visible@[a] < self.games.len()
    }

    /// How many games are in `scope`, whatever the search and filters.
    pub fn count(&self, scope: &Scope) -> (r: usize)
        ensures
            r == scope_count(*scope, self.games@),
    {
        let mut c: usize = 0;
        let mut i: usize = 0;
        while i < self.games.len()
            invariant
                i <= self.games.len(),
                c == scope_count(*scope, self.games@.take(i as int)),
                c <= i,
            decreases self.games.len() - i,
        {
            assert(self.games@.take(i + 1).drop_last() =~= self.games@.take(i as int));
            if scope.contains(&self.games[i]) {
                c += 1;
            }
            i += 1;
        }
        assert(self.games@.take(self.games.len() as int) =~= self.games@);
        c
    }

    /// The selected game.
    pub fn selected_game(&self) -> (r: Option<&Game>)
        ensures
            match r {
                Some(g) => self.selected matches Some(id) && exists|i: int| first_with_id(self.games@, id, i) && self.games@[i] == *g,
                None => !(self.selected matches Some(id) && exists|i: int| 0 <= i < self.games.len() && (#[trigger] self.games@[i]).id == id),
            },
    {
        let id = match self.selected {
            Some(id) => id,
            None => {
                return None;
            },
        };
        let mut i: usize = 0;
        while i < self.games.len()
            invariant
                self.selected == Some(id),
                i <= self.games.len(),
                forall|j: int| 0 <= j < i ==> (#[trigger] self.games@[j]).id != id,
            decreases self.games.len() - i,
        {
            if self.games[i].id == id {
                assert(first_with_id(self.games@, id, i as int));
                return Some(&self.games[i]);
            }
            i += 1;
        }
        None
    }

    /// Selects the game in visible slot `slot`; past the end nothing is selected.
    pub fn select_slot(&mut self, slot: usize)
        requires
            old(self).view_ok(),
        ensures
            final(self).view_ok(),
            final(self).selected == if slot < old(self).visible.len() {
                Some(old(self).games@[old(self).visible@[slot as int] as int].id)
            } else {
                None
            },
            final(self).same_inputs(&*old(self)),
            final(self).visible@ == old(self).visible@,
            final(self).groups@ == old(self).groups@,
    {
        self.selected = if slot < self.visible.len() {
            Some(self.games[self.visible[slot]].id)
        } else {
            None
        };
    }

    /// Moves the selection by `delta` slots, stopping at the first and last visible game;
    /// from no selection it starts at the first. Nothing is selected when nothing is shown.
    pub fn step_selection(&mut self, delta: isize) -> (r: Option<usize>)
        requires
            old(self).view_ok(),
        ensures
            final(self).view_ok(),
            final(self).same_inputs(&*old(self)),
            final(self).visible@ == old(self).visible@,
            old(self).visible.len() == 0 ==> r is None && final(self).selected == old(self).selected,
            old(self).visible.len() > 0 ==> (r matches Some(p) && final(self).selected == Some(old(self).games@[old(self).visible@[p as int] as int].id)
                && p as int == match old(self).selected_slot_spec() {
                    Some(s) => stepped(s, delta as int, old(self).visible.len() as int),
                    None => 0,
                }),
    {
        if self.visible.len() == 0 {
            return None;
        }
        let n = self.visible.len();
        let slot: usize = match self.selected_slot() {
            Some(s) => {
                let t: i128 = s as i128 + delta as i128;
                if t < 0 {
                    0
                } else if t > (n - 1) as i128 {
                    n - 1
                } else {
                    t as usize
                }
            },
            None => 0,
        };
        self.select_slot(slot);
        Some(slot)
    }

    /// The first visible slot that shows the selected game.
    pub open spec fn selected_slot_spec(&self) -> Option<int> {
        match self.selected {
            Some(id) => if slot_shows(self.games@, self.visible@, id) {
                Some(choose|p: int| 0 <= p < self.visible.len() && self.games@[self.visible@[p] as int].id == id
                    && forall|q: int| 0 <= q < p ==> (#[trigger] self.games@[self.visible@[q] as int]).id != id)
            } else {
                None
            },
            None => None,
        }
    }
}

} // verus!

verus! {

impl Scope {
    fn dup(&self) -> (r: Scope)
        ensures
            r == *self,
    {
        match self {
            Scope::All => Scope::All,
            Scope::Favorites => Scope::Favorites,
            Scope::Hidden => Scope::Hidden,
            Scope::Status(s) => Scope::Status(s.clone()),
            Scope::Collection(id) => Scope::Collection(*id),
        }
    }
}

/// The label of the first status with this key.
pub open spec fn status_label_of(statuses: Seq<StatusDefinition>, key: Seq<char>) -> Option<Seq<char>> {
    if exists|i: int| first_status(statuses, key, i) {
        Some(statuses[choose|i: int| first_status(statuses, key, i)].label@)
    } else {
        None
    }
}

fn label_for(statuses: &Vec<StatusDefinition>, key: &str) -> (r: Option<String>)
    ensures
        opt_text(r) == status_label_of(statuses@, key@),
{
    let mut i: usize = 0;
    while i < statuses.len()
        invariant
            i <= statuses.len(),
            forall|j: int| 0 <= j < i ==> #[trigger] statuses@[j].key@ != key@,
        decreases statuses.len() - i,
    {
        if crate::text::str_eq(statuses[i].key.as_str(), key) {
            proof {
                assert(first_status(statuses@, key@, i as int));
                let c = choose|c: int| first_status(statuses@, key@, c);
                if c < i {
                    assert(statuses@[c].key@ != key@);
                } else if c > i {
                    assert(statuses@[i as int].key@ != key@);
                }
            }
            return Some(statuses[i].label.clone());
        }
        i += 1;
    }
    proof {
        if exists|c: int| first_status(statuses@, key@, c) {
            let c = choose|c: int| first_status(statuses@, key@, c);
            assert(statuses@[c].key@ != key@);
        }
    }
    None
}

/// Collection `i` is the first with this ID.
pub open spec fn first_collection(cs: Seq<crate::library::CollectionDefinition>, id: u128, i: int) -> bool {
    0 <= i < cs.len() && cs[i].id == id && forall|j: int| 0 <= j < i ==> (#[trigger] cs[j]).id != id
}

/// The name of the first collection with this ID among the definitions.
pub open spec fn collection_name_of(source: Option<(String, crate::library::LibraryRevision)>, id: u128) -> Option<Seq<char>> {
    match source {
        Some((_, m)) => {
            let cs = m.definitions.collections@;
            if exists|i: int| first_collection(cs, id, i) {
                Some(cs[choose|i: int| first_collection(cs, id, i)].name@)
            } else {
                None
            }
        },
        None => None,
    }
}

/// The sidebar wording of a scope.
pub open spec fn scope_text(scope: Scope, statuses: Seq<StatusDefinition>, source: Option<(String, crate::library::LibraryRevision)>) -> Seq<char> {
    match scope {
        Scope::Collection(id) => match collection_name_of(source, id) {
            Some(n) => n,
            None => "Collection"@,
        },
        Scope::All => "All games"@,
        Scope::Favorites => "Favorites"@,
        Scope::Hidden => "Hidden games"@,
        Scope::Status(key) => match status_label_of(statuses, key@) {
            Some(l) => l,
            None => key@,
        },
    }
}

impl Library {
    /// Shows another scope.
    pub fn set_scope(&mut self, scope: Scope)
        requires
            old(self).wf(),
        ensures
            final(self).wf(),
            final(self).same_inputs(&Library { scope: scope, ..*old(self) }),
            final(self).recomputed(old(self).selected),
    {
        self.scope = scope;
        self.recompute();
    }

    /// Searches titles and tags for `query`, trimmed and without regard to case.
    pub fn set_query(&mut self, query: &str)
        requires
            old(self).wf(),
        ensures
            final(self).wf(),
            final(self).query@ == lowercase(crate::text::trimmed(query@)),
            final(self).same_inputs(&Library { query: final(self).query, ..*old(self) }),
            final(self).recomputed(old(self).selected),
    {
        self.query = crate::text::to_lowercase(crate::text::trim(query));
        self.recompute();
    }

    /// Shows or hides the hidden scope; hiding it while it is shown returns to all games.
    pub fn set_show_hidden_games(&mut self, show: bool)
        requires
            old(self).wf(),
        ensures
            final(self).wf(),
            final(self).show_hidden_games == show,
            !show && old(self).scope is Hidden ==> final(self).same_inputs(&Library { scope: Scope::All, show_hidden_games: show, ..*old(self) })
                && final(self).recomputed(old(self).selected),
            !(!show && old(self).scope is Hidden) ==> final(self).same_inputs(&Library { show_hidden_games: show, ..*old(self) })
                && final(self).selected == old(self).selected && final(self).visible@ == old(self).visible@ && final(self).groups@ == old(self).groups@,
    {
        self.show_hidden_games = show;
        let hidden = match self.scope {
            Scope::Hidden => true,
            _ => false,
        };
        if !show && hidden {
            self.set_scope(Scope::All);
        }
    }

    /// The sidebar wording of `scope`.
    pub fn scope_label(&self, scope: &Scope) -> (r: String)
        ensures
            r@ == scope_text(*scope, self.statuses@, self.source),
    {
        match scope {
            Scope::Collection(id) => {
                match &self.source {
                    Some((_, m)) => {
                        let cs = &m.definitions.collections;
                        let mut i: usize = 0;
                        while i < cs.len()
                            invariant
                                i <= cs.len(),
                                *scope == Scope::Collection(*id),
                                self.source matches Some(x) && x.1.definitions.collections@ == cs@,
                                forall|j: int| 0 <= j < i ==> (#[trigger] cs@[j]).id != *id,
                            decreases cs.len() - i,
                        {
                            if cs[i].id == *id {
                                proof {
                                    let mc = match &self.source {
                                        Some(x) => x.1.definitions.collections@,
                                        None => Seq::empty(),
                                    };
                                    assert(mc == cs@);
                                    assert(first_collection(mc, *id, i as int));
                                    let c = choose|c: int| first_collection(mc, *id, c);
                                    if c < i {
                                        assert(mc[c].id != *id);
                                    } else if c > i {
                                        assert(mc[i as int].id != *id);
                                    }
                                    assert(c == i);
                                    assert(collection_name_of(self.source, *id) == Some(mc[i as int].name@));
                                }
                                let r = cs[i].name.clone();
                                assert(r@ == cs@[i as int].name@);
                                assert(*scope == Scope::Collection(*id));
                                assert(scope_text(*scope, self.statuses@, self.source) == r@);
                                return r;
                            }
                            i += 1;
                        }
                        proof {
                            if exists|c: int| first_collection(cs@, *id, c) {
                                let c = choose|c: int| first_collection(cs@, *id, c);
                                assert(cs@[c].id != *id);
                            }
                        }
                        String::from_str("Collection")
                    },
                    None => String::from_str("Collection"),
                }
            },
            Scope::All => String::from_str("All games"),
            Scope::Favorites => String::from_str("Favorites"),
            Scope::Hidden => String::from_str("Hidden games"),
            Scope::Status(key) => match label_for(&self.statuses, key.as_str()) {
                Some(l) => l,
                None => key.clone(),
            },
        }
    }
}

} // verus!

verus! {

/// The label a game shows: its own when set, else its status's label, else its status key.
pub open spec fn shown_label(g: Game, statuses: Seq<StatusDefinition>) -> String {
    if g.status_label@.len() > 0 {
        g.status_label
    } else if exists|i: int| first_status(statuses, g.status@, i) {
        statuses[choose|i: int| first_status(statuses, g.status@, i)].label
    } else {
        g.status
    }
}

fn label_string(statuses: &Vec<StatusDefinition>, g: &Game) -> (r: String)
    ensures
        r == shown_label(*g, statuses@),
{
    if g.status_label.unicode_len() > 0 {
        return g.status_label.clone();
    }
    let mut i: usize = 0;
    while i < statuses.len()
        invariant
            i <= statuses.len(),
            g.status_label@.len() == 0,
            forall|j: int| 0 <= j < i ==> #[trigger] statuses@[j].key@ != g.status@,
        decreases statuses.len() - i,
    {
        if crate::text::str_eq(statuses[i].key.as_str(), g.status.as_str()) {
            proof {
                assert(first_status(statuses@, g.status@, i as int));
                let c = choose|c: int| first_status(statuses@, g.status@, c);
                if c < i {
                    assert(statuses@[c].key@ != g.status@);
                } else if c > i {
                    assert(statuses@[i as int].key@ != g.status@);
                }
            }
            return statuses[i].label.clone();
        }
        i += 1;
    }
    proof {
        if exists|c: int| first_status(statuses@, g.status@, c) {
            let c = choose|c: int| first_status(statuses@, g.status@, c);
            assert(statuses@[c].key@ != g.status@);
        }
    }
    g.status.clone()
}

/// Tags joined by single spaces.
pub open spec fn joined(tags: Seq<String>) -> Seq<char>
    decreases tags.len(),
{
    if tags.len() == 0 {
        Seq::empty()
    } else if tags.len() == 1 {
        tags[0]@
    } else {
        joined(tags.drop_last()) + " "@ + tags.last()@
    }
}

/// What the search looks in: the title and the tags, lowercased.
pub open spec fn search_text(g: Game) -> Seq<char> {
    lowercase(g.title@ + " "@ + joined(g.tags@))
}

fn search_string(g: &Game) -> (r: String)
    ensures
        r@ == search_text(*g),
{
    let mut s = g.title.clone();
    s.append(" ");
    let ghost head = s@;
    let mut i: usize = 0;
    while i < g.tags.len()
        invariant
            i <= g.tags.len(),
            s@ == head + joined(g.tags@.take(i as int)),
        decreases g.tags.len() - i,
    {
        let ghost before = s@;
        if i > 0 {
            s.append(" ");
        }
        s.append(g.tags[i].as_str());
        proof {
            let t = g.tags@.take(i + 1);
            assert(t.drop_last() =~= g.tags@.take(i as int));
            if i == 0 {
                assert(joined(t) == t[0]@);
                assert(joined(g.tags@.take(0)) =~= Seq::<char>::empty());
            }
        }
        assert(s@ =~= head + joined(g.tags@.take(i + 1)));
        i += 1;
    }
    assert(g.tags@.take(g.tags.len() as int) =~= g.tags@);
    crate::text::to_lowercase(s.as_str())
}

/// Title order of a stable sort: by lowercased title, then by original position.
pub open spec fn title_before(keys: Seq<Seq<char>>, pa: int, pb: int) -> bool {
    order_text(keys[pa], keys[pb]) < 0 || (order_text(keys[pa], keys[pb]) == 0 && pa < pb)
}

/// `perm` lists each original position below `n` once.
pub open spec fn is_permutation(perm: Seq<int>, n: int) -> bool {
    &&& perm.len() == n
    &&& forall|a: int| 0 <= a < n ==> 0 <= #[trigger] perm[a] < n
    &&& forall|a: int, b: int| 0 <= a < b < n ==> perm[a] != perm[b]
}

proof fn lemma_title_before(keys: Seq<Seq<char>>, a: int, b: int, c: int)
    ensures
        a != b ==> (title_before(keys, a, b) || title_before(keys, b, a)),
        !(title_before(keys, a, b) && title_before(keys, b, a)),
        title_before(keys, a, b) && title_before(keys, b, c) ==> title_before(keys, a, c),
{
    lemma_order_text(keys[a], keys[b], keys[c]);
    lemma_order_text(keys[b], keys[c], keys[a]);
    lemma_order_text(keys[a], keys[c], keys[b]);
    lemma_order_text(keys[b], keys[a], keys[c]);
}

/// Sorts games by lowercased title, keeping the order of equal titles. `perm` tells
/// where each game came from.
fn sort_by_title(games: Vec<Game>) -> (r: (Vec<Game>, Ghost<Seq<int>>))
    ensures
        is_permutation(r.1@, games.len() as int),
        r.0.len() == games.len(),
        forall|a: int| 0 <= a < games.len() ==> r.0@[a] == #[trigger] games@[r.1@[a]],
        forall|a: int, b: int| 0 <= a < b < games.len() ==> title_before(games@.map_values(|g: Game| name_key(g)), r.1@[a], r.1@[b]),
{
    let ghost orig = games@;
    let ghost keys = orig.map_values(|g: Game| name_key(g));
    let n = games.len();
    let mut v = games;
    let mut lower: Vec<String> = Vec::new();
    let mut k: usize = 0;
    while k < n
        invariant
            n == v.len(),
            v@ == orig,
            keys == orig.map_values(|g: Game| name_key(g)),
            k <= n,
            lower.len() == k,
            forall|a: int| 0 <= a < k ==> (#[trigger] lower@[a])@ == keys[a],
        decreases n - k,
    {
        lower.push(crate::text::to_lowercase(v[k].title.as_str()));
        k += 1;
    }
    let ghost mut perm: Seq<int> = Seq::new(n as nat, |a: int| a);
    let mut i: usize = 0;
    while i < n
        invariant
            n == v.len(),
            n == lower.len(),
            n == orig.len(),
            keys == orig.map_values(|g: Game| name_key(g)),
            i <= n,
            is_permutation(perm, n as int),
            forall|a: int| 0 <= a < n ==> v@[a] == #[trigger] orig[perm[a]],
            forall|a: int| 0 <= a < n ==> (#[trigger] lower@[a])@ == keys[perm[a]],
            forall|a: int| i <= a < n ==> perm[a] == a,
            forall|a: int| 0 <= a < i ==> perm[a] < i,
            forall|a: int, b: int| 0 <= a < b < i ==> title_before(keys, perm[a], perm[b]),
        decreases n - i,
    {
        let mut p: usize = 0;
        while p < i && crate::ordering::compare_text(lower[i].as_str(), lower[p].as_str()) >= 0
            invariant
                n == v.len(),
                n == lower.len(),
                i < n,
                forall|a: int| 0 <= a < n ==> (#[trigger] lower@[a])@ == keys[perm[a]],
                forall|a: int| i <= a < n ==> perm[a] == a,
                forall|a: int| 0 <= a < i ==> perm[a] < i,
                p <= i,
                forall|q: int| 0 <= q < p ==> title_before(keys, perm[q], i as int),
            decreases i - p,
        {
            proof {
                assert(lower@[i as int]@ == keys[i as int]);
                assert(lower@[p as int]@ == keys[perm[p as int]]);
                lemma_order_text(keys[i as int], keys[perm[p as int]], keys[i as int]);
            }
            p += 1;
        }
        let ghost before_perm = perm;
        let ghost before_v = v@;
        let g = v.remove(i);
        v.insert(p, g);
        let key = lower.remove(i);
        lower.insert(p, key);
        proof {
            perm = before_perm.remove(i as int).insert(p as int, i as int);
            assert forall|a: int| 0 <= a < n implies v@[a] == #[trigger] orig[perm[a]] by {
                if a < p {
                    assert(v@[a] == before_v[a]);
                } else if a == p {
                    assert(v@[a] == before_v[i as int]);
                } else if a <= i {
                    assert(v@[a] == before_v[a - 1]);
                } else {
                    assert(v@[a] == before_v[a]);
                }
            }
            assert forall|a: int, b: int| 0 <= a < b < i + 1 implies title_before(keys, perm[a], perm[b]) by {
                if p < i {
                    let pp = before_perm[p as int];
                    assert(!title_before(keys, pp, i as int) || pp >= i) by {
                        lemma_order_text(keys[i as int], keys[pp], keys[i as int]);
                    }
                }
                if b < p {
                } else if b == p {
                    assert(perm[a] == before_perm[a]);
                } else if a < p {
                    assert(perm[a] == before_perm[a]);
                    assert(perm[b] == before_perm[b - 1]);
                    let pp = before_perm[p as int];
                    lemma_title_before(keys, i as int, pp, before_perm[b - 1]);
                    lemma_title_before(keys, perm[a], i as int, before_perm[b - 1]);
                    lemma_title_before(keys, pp, i as int, pp);
                    if b - 1 > p {
                        lemma_title_before(keys, pp, before_perm[b - 1], pp);
                    }
                } else if a == p {
                    assert(perm[b] == before_perm[b - 1]);
                    let pp = before_perm[p as int];
                    lemma_title_before(keys, i as int, pp, before_perm[b - 1]);
                    lemma_title_before(keys, pp, i as int, pp);
                    if b - 1 > p {
                        lemma_title_before(keys, pp, before_perm[b - 1], pp);
                    }
                } else {
                    assert(perm[a] == before_perm[a - 1]);
                    assert(perm[b] == before_perm[b - 1]);
                }
            }
        }
        i += 1;
    }
    (v, Ghost(perm))
}

} // verus!

verus! {

/// Positions of the first `n` games that are not hidden, in order.
pub open spec fn unhidden(games: Seq<Game>, n: nat) -> Seq<usize>
    decreases n,
{
    if n == 0 {
        Seq::empty()
    } else {
        unhidden(games, (n - 1) as nat) + if !is_hidden(games[n - 1]) {
            seq![(n - 1) as usize]
        } else {
            Seq::empty()
        }
    }
}

/// The game with the label it shows.
pub open spec fn relabeled(g: Game, statuses: Seq<StatusDefinition>) -> Game {
    Game { status_label: shown_label(g, statuses), ..g }
}

/// The games, each with the label it shows, ordered by title as `perm` says.
pub open spec fn labeled_in_order(input: Seq<Game>, statuses: Seq<StatusDefinition>, perm: Seq<int>, out: Seq<Game>) -> bool {
    &&& is_permutation(perm, input.len() as int)
    &&& out.len() == input.len()
    &&& forall|a: int| 0 <= a < out.len() ==> out[a] == #[trigger] relabeled(input[perm[a]], statuses)
    &&& forall|a: int, b: int| 0 <= a < b < out.len() ==> title_before(input.map_values(|g: Game| name_key(g)), perm[a], perm[b])
}

impl Library {
    /// The sample library: the given games with the starter statuses, sorted by title,
    /// every game that is not hidden shown, nothing selected.
    pub fn new(games: Vec<Game>) -> (r: Library)
        ensures
            r.wf(),
            r.view_ok(),
            r.name@ == "Demo library"@,
            r.demo,
            crate::library::starter_statuses(r.statuses@),
            exists|perm: Seq<int>| labeled_in_order(games@, r.statuses@, perm, r.games@),
            forall|a: int| 0 <= a < r.games.len() ==> (#[trigger] r.search_keys@[a])@ == search_text(r.games@[a]),
            r.visible@ == unhidden(r.games@, r.games.len() as nat),
            r.groups.len() == 0,
            r.selected is None,
            r.scope is All,
            !r.show_hidden_games,
            r.display == (LibraryDisplay { sort: SortBy::Name, descending: false, group: GroupBy::Ungrouped }),
            r.filter_status is None,
            r.filter_collection is None,
            !r.filter_favorites,
            r.query@.len() == 0,
            r.source is None,
            r.write_issue is None,
            r.conflicts.len() == 0,
            r.media_version == 0,
    {
        let ghost input = games@;
        let statuses = crate::library::LibraryDefinitions::new("Demo library").statuses;
        let n = games.len();
        let (mut sorted, Ghost(perm)) = sort_by_title(games);
        let mut i: usize = 0;
        while i < n
            invariant
                n == sorted.len(),
                n == input.len(),
                i <= n,
                is_permutation(perm, n as int),
                forall|a: int| 0 <= a < i ==> sorted@[a] == #[trigger] relabeled(input[perm[a]], statuses@),
                forall|a: int| i <= a < n ==> sorted@[a] == #[trigger] input[perm[a]],
            decreases n - i,
        {
            let mut g = sorted.remove(i);
            let label = label_string(&statuses, &g);
            g.status_label = label;
            sorted.insert(i, g);
            i += 1;
        }
        let mut search_keys: Vec<String> = Vec::new();
        let mut visible: Vec<usize> = Vec::new();
        let mut k: usize = 0;
        while k < n
            invariant
                n == sorted.len(),
                k <= n,
                search_keys.len() == k,
                forall|a: int| 0 <= a < k ==> (#[trigger] search_keys@[a])@ == search_text(sorted@[a]),
                visible@ == unhidden(sorted@, k as nat),
                forall|a: int| 0 <= a < visible.len() ==> visible@[a] < k,
            decreases n - k,
        {
            search_keys.push(search_string(&sorted[k]));
            if !sorted[k].hidden() {
                visible.push(k);
            }
            assert(visible@ =~= unhidden(sorted@, (k + 1) as nat));
            k += 1;
        }
        assert(labeled_in_order(input, statuses@, perm, sorted@));
        let name = String::from_str("Demo library");
        Library {
            games: sorted,
            visible,
            selected: None,
            name,
            statuses,
            demo: true,
            source: None,
            write_issue: None,
            conflicts: Vec::new(),
            media_version: 0,
            scope: Scope::All,
            show_hidden_games: false,
            display: LibraryDisplay { sort: SortBy::Name, descending: false, group: GroupBy::Ungrouped },
            filter_status: None,
            filter_collection: None,
            filter_favorites: false,
            groups: Vec::new(),
            query: String::new(),
            search_keys,
        }
    }
}

} // verus!

verus! {

/// What the reader hands the views: the current definitions and the valid games.
pub struct LoadedLibrary {
    pub root: String,
    /// File problems block edits; cover problems only affect display.
    pub write_issue: Option<String>,
    pub manifest: crate::library::LibraryRevision,
    pub games: Vec<GameRevision>,
    pub conflicts: Vec<(u128, String)>,
    /// Resolved cover files by game ID.
    pub covers: Vec<(u128, String)>,
    pub media_version: u64,
    pub issues: Vec<String>,
}

/// The resolved cover of game `id`: the first entry for it.
pub open spec fn cover_of(covers: Seq<(u128, String)>, id: u128) -> Option<Seq<char>>
    decreases covers.len(),
{
    if covers.len() == 0 {
        None
    } else if covers[0].0 == id {
        Some(covers[0].1@)
    } else {
        cover_of(covers.drop_first(), id)
    }
}

/// Names of the collections, in definition order, that are not archived and that the
/// game is in.
pub open spec fn collection_names(cs: Seq<crate::library::CollectionDefinition>, member: Seq<u128>) -> Seq<Seq<char>>
    decreases cs.len(),
{
    if cs.len() == 0 {
        Seq::empty()
    } else {
        collection_names(cs.drop_last(), member) + if !cs.last().archived && member.contains(cs.last().id) {
            seq![cs.last().name@]
        } else {
            Seq::empty()
        }
    }
}

/// The label for a status key: its definition's label, else the key itself.
pub open spec fn label_or_key(statuses: Seq<StatusDefinition>, key: Seq<char>) -> Seq<char> {
    match status_label_of(statuses, key) {
        Some(l) => l,
        None => key,
    }
}

/// Game `g` shows record `r` under definitions `defs`.
pub open spec fn game_of(r: GameRevision, defs: crate::library::LibraryDefinitions, covers: Seq<(u128, String)>, g: Game) -> bool {
    &&& g.id == r.game_id
    &&& g.record matches Some(x) && revision_same(x, r)
    &&& g.title@ == r.game.title@
    &&& g.cover@ == "covers/missing.jpg"@
    &&& opt_text(g.cover_path) == cover_of(covers, r.game_id)
    &&& g.description@ == match shown_description(r.game) {
        Some(d) => d,
        None => Seq::empty(),
    }
    &&& g.status@ == r.game.personal.status@
    &&& g.status_label@ == label_or_key(defs.statuses@, r.game.personal.status@)
    &&& strs(g.collections@) == collection_names(defs.collections@, r.game.personal.collections@)
    &&& g.rating == r.game.personal.rating
    &&& strs(g.tags@) == strs(r.game.personal.tags@)
    &&& g.favorite == r.game.personal.favorite
    &&& g.playtime_minutes == match r.game.steam {
        Some(s) => s.playtime_minutes,
        None => 0,
    }
}

fn cover_for(covers: &Vec<(u128, String)>, id: u128) -> (r: Option<String>)
    ensures
        opt_text(r) == cover_of(covers@, id),
{
    let mut i: usize = 0;
    assert(covers@.subrange(0, covers.len() as int) =~= covers@);
    while i < covers.len()
        invariant
            i <= covers.len(),
            cover_of(covers@, id) == cover_of(covers@.subrange(i as int, covers.len() as int), id),
        decreases covers.len() - i,
    {
        let ghost rest = covers@.subrange(i as int, covers.len() as int);
        assert(rest.drop_first() =~= covers@.subrange(i + 1, covers.len() as int));
        if covers[i].0 == id {
            return Some(covers[i].1.clone());
        }
        i += 1;
    }
    None
}

fn names_in(cs: &Vec<crate::library::CollectionDefinition>, member: &Vec<u128>) -> (r: Vec<String>)
    ensures
        strs(r@) == collection_names(cs@, member@),
{
    let mut r: Vec<String> = Vec::new();
    let mut i: usize = 0;
    while i < cs.len()
        invariant
            i <= cs.len(),
            strs(r@) == collection_names(cs@.take(i as int), member@),
        decreases cs.len() - i,
    {
        assert(cs@.take(i + 1).drop_last() =~= cs@.take(i as int));
        if !cs[i].archived && holds_u128(member, cs[i].id) {
            r.push(cs[i].name.clone());
        }
        assert(strs(r@) =~= collection_names(cs@.take(i + 1), member@));
        i += 1;
    }
    assert(cs@.take(cs.len() as int) =~= cs@);
    r
}

fn label_text(statuses: &Vec<StatusDefinition>, key: &String) -> (r: String)
    ensures
        r@ == label_or_key(statuses@, key@),
{
    match label_for(statuses, key.as_str()) {
        Some(l) => l,
        None => key.clone(),
    }
}

fn game_from(r: &GameRevision, defs: &crate::library::LibraryDefinitions, covers: &Vec<(u128, String)>) -> (g: Game)
    ensures
        game_of(*r, *defs, covers@, g),
{
    let p = &r.game.personal;
    let description = match r.game.description() {
        Some(d) => d.to_owned(),
        None => String::new(),
    };
    Game {
        id: r.game_id,
        title: r.game.title.clone(),
        cover: String::from_str("covers/missing.jpg"),
        description,
        status: p.status.clone(),
        status_label: label_text(&defs.statuses, &p.status),
        collections: names_in(&defs.collections, &p.collections),
        cover_path: cover_for(covers, r.game_id),
        rating: p.rating,
        tags: crate::records::dup_strings(&p.tags),
        playtime_minutes: match &r.game.steam {
            Some(s) => s.playtime_minutes,
            None => 0,
        },
        favorite: p.favorite,
        record: Some(r.dup()),
    }
}

} // verus!

verus! {

/// The game after record `r` was saved for it: its personal values, label and collections
/// follow the record; title, artwork, description and playtime stay.
pub open spec fn personal_applied(g: Game, r: GameRevision, statuses: Seq<StatusDefinition>, source: Option<(String, crate::library::LibraryRevision)>, n: Game) -> bool {
    &&& n.id == g.id
    &&& n.title == g.title
    &&& n.cover == g.cover
    &&& n.description == g.description
    &&& n.cover_path == g.cover_path
    &&& n.playtime_minutes == g.playtime_minutes
    &&& n.favorite == r.game.personal.favorite
    &&& n.status@ == r.game.personal.status@
    &&& n.status_label@ == label_or_key(statuses, r.game.personal.status@)
    &&& n.rating == r.game.personal.rating
    &&& strs(n.tags@) == strs(r.game.personal.tags@)
    &&& strs(n.collections@) == match source {
        Some((_, m)) => collection_names(m.definitions.collections@, r.game.personal.collections@),
        None => Seq::empty(),
    }
    &&& n.record == Some(r)
}

/// The first game with this ID.
pub open spec fn first_game(games: Seq<Game>, id: u128) -> Option<int> {
    if exists|i: int| first_with_id(games, id, i) {
        Some(choose|i: int| first_with_id(games, id, i))
    } else {
        None
    }
}

fn statuses_copy(s: &Vec<StatusDefinition>) -> (r: Vec<StatusDefinition>)
    ensures
        r.len() == s.len(),
        forall|i: int| 0 <= i < s.len() ==> crate::library::status_same(#[trigger] r@[i], s@[i]),
{
    let mut r: Vec<StatusDefinition> = Vec::new();
    let mut i: usize = 0;
    while i < s.len()
        invariant
            i <= s.len(),
            r.len() == i,
            forall|j: int| 0 <= j < i ==> crate::library::status_same(#[trigger] r@[j], s@[j]),
        decreases s.len() - i,
    {
        r.push(s[i].dup());
        i += 1;
    }
    r
}

fn pairs_copy(s: &Vec<(u128, String)>) -> (r: Vec<(u128, String)>)
    ensures
        r@ == s@,
{
    let mut r: Vec<(u128, String)> = Vec::new();
    let mut i: usize = 0;
    while i < s.len()
        invariant
            i <= s.len(),
            r@ == s@.take(i as int),
        decreases s.len() - i,
    {
        let (id, text) = (s[i].0, s[i].1.clone());
        r.push((id, text));
        assert(r@ =~= s@.take(i + 1));
        i += 1;
    }
    assert(s@.take(s.len() as int) =~= s@);
    r
}

impl Library {
    /// The games of a loaded library, sorted by title, with its definitions, conflicts and
    /// media version. Nothing is selected and every game that is not hidden is shown.
    pub fn from_loaded(loaded: &LoadedLibrary) -> (r: Library)
        ensures
            r.wf(),
            r.view_ok(),
            exists|shown: Seq<Game>, starter: Seq<StatusDefinition>, perm: Seq<int>| {
                &&& shown.len() == loaded.games.len()
                &&& forall|i: int| 0 <= i < shown.len() ==> game_of(loaded.games@[i], loaded.manifest.definitions, loaded.covers@, #[trigger] shown[i])
                &&& crate::library::starter_statuses(starter)
                &&& labeled_in_order(shown, starter, perm, r.games@)
            },
            r.visible@ == unhidden(r.games@, r.games.len() as nat),
            r.statuses.len() == loaded.manifest.definitions.statuses.len(),
            forall|i: int| 0 <= i < r.statuses.len() ==> crate::library::status_same(#[trigger] r.statuses@[i], loaded.manifest.definitions.statuses@[i]),
            r.name@ == loaded.manifest.definitions.name@,
            !r.demo,
            r.source matches Some((root, m)) && root@ == loaded.root@ && crate::library::library_same(m, loaded.manifest),
            r.write_issue == loaded.write_issue,
            r.conflicts@ == loaded.conflicts@,
            r.media_version == loaded.media_version,
            r.groups.len() == 0,
            r.selected is None,
            r.scope is All,
            r.query@.len() == 0,
            r.display == (LibraryDisplay { sort: SortBy::Name, descending: false, group: GroupBy::Ungrouped }),
            r.filter_status is None && r.filter_collection is None && !r.filter_favorites && !r.show_hidden_games,
    {
        let defs = &loaded.manifest.definitions;
        let mut games: Vec<Game> = Vec::new();
        let mut i: usize = 0;
        while i < loaded.games.len()
            invariant
                defs == &loaded.manifest.definitions,
                i <= loaded.games.len(),
                games.len() == i,
                forall|j: int| 0 <= j < i ==> game_of(loaded.games@[j], loaded.manifest.definitions, loaded.covers@, #[trigger] games@[j]),
            decreases loaded.games.len() - i,
        {
            games.push(game_from(&loaded.games[i], defs, &loaded.covers));
            i += 1;
        }
        let ghost shown = games@;
        let mut library = Library::new(games);
        let ghost starter = library.statuses@;
        let ghost perm = choose|perm: Seq<int>| labeled_in_order(shown, starter, perm, library.games@);
        assert(labeled_in_order(shown, starter, perm, library.games@));
        library.statuses = statuses_copy(&defs.statuses);
        library.name = defs.name.clone();
        library.demo = false;
        library.source = Some((loaded.root.clone(), loaded.manifest.dup()));
        library.write_issue = match &loaded.write_issue {
            Some(w) => Some(w.clone()),
            None => None,
        };
        library.conflicts = pairs_copy(&loaded.conflicts);
        library.media_version = loaded.media_version;
        assert(labeled_in_order(shown, starter, perm, library.games@));
        library
    }
}

} // verus!

verus! {

/// The position of the last of the first `k` records with this game ID.
pub open spec fn last_record(records: Seq<GameRevision>, id: u128, k: int) -> Option<int>
    decreases k,
{
    if k <= 0 {
        None
    } else if records[k - 1].game_id == id {
        Some(k - 1)
    } else {
        last_record(records, id, k - 1)
    }
}

/// Game `i` after the first `k` records were saved: the first game with an ID takes the
/// last record saved for it; every other game is unchanged.
pub open spec fn after_saves(orig: Seq<Game>, records: Seq<GameRevision>, k: int, statuses: Seq<StatusDefinition>, source: Option<(String, crate::library::LibraryRevision)>, i: int, g: Game) -> bool {
    if first_with_id(orig, orig[i].id, i) && last_record(records, orig[i].id, k) is Some {
        personal_applied(orig[i], records[last_record(records, orig[i].id, k)->0], statuses, source, g)
    } else {
        g == orig[i]
    }
}

fn apply_one(g: Game, r: GameRevision, statuses: &Vec<StatusDefinition>, source: &Option<(String, crate::library::LibraryRevision)>) -> (n: Game)
    ensures
        personal_applied(g, r, statuses@, *source, n),
{
    let p = &r.game.personal;
    let status = p.status.clone();
    let status_label = label_text(statuses, &p.status);
    let collections = match source {
        Some((_, m)) => names_in(&m.definitions.collections, &p.collections),
        None => Vec::new(),
    };
    let rating = p.rating;
    let tags = crate::records::dup_strings(&p.tags);
    let favorite = p.favorite;
    proof {
        if source is None {
            assert(strs(collections@) =~= Seq::<Seq<char>>::empty());
        }
    }
    Game {
        id: g.id,
        title: g.title,
        cover: g.cover,
        description: g.description,
        status,
        status_label,
        collections,
        cover_path: g.cover_path,
        rating,
        tags,
        playtime_minutes: g.playtime_minutes,
        favorite,
        record: Some(r),
    }
}

fn first_index(games: &Vec<Game>, id: u128) -> (r: Option<usize>)
    ensures
        match r {
            Some(i) => first_with_id(games@, id, i as int),
            None => forall|i: int| 0 <= i < games.len() ==> (#[trigger] games@[i]).id != id,
        },
{
    let mut i: usize = 0;
    while i < games.len()
        invariant
            i <= games.len(),
            forall|j: int| 0 <= j < i ==> (#[trigger] games@[j]).id != id,
        decreases games.len() - i,
    {
        if games[i].id == id {
            return Some(i);
        }
        i += 1;
    }
    None
}

impl Library {
    /// Shows saved records: each record's game takes its personal values, label and
    /// collections; the search follows the new tags and the view is recomputed.
    pub fn apply_personal_records(&mut self, records: Vec<GameRevision>)
        requires
            old(self).wf(),
        ensures
            final(self).wf(),
            final(self).games.len() == old(self).games.len(),
            forall|i: int| 0 <= i < old(self).games.len() ==> after_saves(old(self).games@, records@, records.len() as int, old(self).statuses@, old(self).source, i, #[trigger] final(self).games@[i]),
            forall|a: int| 0 <= a < final(self).games.len() ==> (#[trigger] final(self).search_keys@[a])@ == search_text(final(self).games@[a]),
            final(self).same_inputs(&Library { games: final(self).games, search_keys: final(self).search_keys, ..*old(self) }),
            final(self).recomputed(old(self).selected),
    {
        let ghost orig = self.games@;
        let ghost all = records@;
        let n = records.len();
        let mut rest = records;
        let mut k: usize = 0;
        while k < n
            invariant
                n == all.len(),
                k <= n,
                rest@ == all.subrange(k as int, n as int),
                self.games.len() == orig.len(),
                forall|i: int| 0 <= i < orig.len() ==> (#[trigger] self.games@[i]).id == orig[i].id,
                forall|i: int| 0 <= i < orig.len() ==> after_saves(orig, all, k as int, self.statuses@, self.source, i, #[trigger] self.games@[i]),
                self.search_keys.len() == orig.len(),
                self.statuses@ == old(self).statuses@,
                self.source == old(self).source,
                self.same_inputs(&Library { games: self.games, ..*old(self) }),
                self.selected == old(self).selected,
            decreases n - k,
        {
            let r = rest.remove(0);
            assert(r == all[k as int]);
            match first_index(&self.games, r.game_id) {
                Some(i) => {
                    let ghost before = self.games@;
                    let g = self.games.remove(i);
                    let updated = apply_one(g, r, &self.statuses, &self.source);
                    self.games.insert(i, updated);
                    proof {
                        assert(self.games@ == before.update(i as int, updated));
                        assert forall|j: int| 0 <= j < orig.len() implies after_saves(orig, all, k + 1, self.statuses@, self.source, j, #[trigger] self.games@[j]) by {
                            if j == i {
                                assert(first_with_id(orig, orig[j].id, j)) by {
                                    assert forall|x: int| 0 <= x < j implies (#[trigger] orig[x]).id != orig[j].id by {
                                        assert(before[x].id == orig[x].id);
                                    }
                                }
                            } else {
                                assert(self.games@[j] == before[j]);
                                if orig[j].id == r.game_id && first_with_id(orig, orig[j].id, j) {
                                    assert(before[j].id == orig[j].id);
                                    if j < i {
                                        assert(before[j].id != r.game_id);
                                    } else {
                                        assert(orig[i as int].id == before[i as int].id);
                                    }
                                }
                            }
                        }
                    }
                },
                None => {
                    proof {
                        assert forall|j: int| 0 <= j < orig.len() implies after_saves(orig, all, k + 1, self.statuses@, self.source, j, #[trigger] self.games@[j]) by {
                            assert(self.games@[j].id == orig[j].id);
                        }
                    }
                },
            }
            assert(rest@ =~= all.subrange(k + 1, n as int));
            k += 1;
        }
        let mut keys: Vec<String> = Vec::new();
        let mut a: usize = 0;
        while a < self.games.len()
            invariant
                a <= self.games.len(),
                keys.len() == a,
                forall|x: int| 0 <= x < a ==> (#[trigger] keys@[x])@ == search_text(self.games@[x]),
            decreases self.games.len() - a,
        {
            keys.push(search_string(&self.games[a]));
            a += 1;
        }
        self.search_keys = keys;
        self.recompute();
    }

    /// Shows one saved record.
    pub fn apply_personal_record(&mut self, record: GameRevision)
        requires
            old(self).wf(),
        ensures
            final(self).wf(),
            final(self).games.len() == old(self).games.len(),
            forall|i: int| 0 <= i < old(self).games.len() ==> after_saves(old(self).games@, seq![record], 1, old(self).statuses@, old(self).source, i, #[trigger] final(self).games@[i]),
            final(self).same_inputs(&Library { games: final(self).games, search_keys: final(self).search_keys, ..*old(self) }),
            final(self).recomputed(old(self).selected),
    {
        let ghost r = record;
        let records = vec![record];
        assert(records@ =~= seq![r]);
        self.apply_personal_records(records);
    }
}

} // verus!

verus! {

/// A scope that still exists in the refreshed library; otherwise all games.
pub open spec fn kept_scope(scope: Scope, next: Library) -> Scope {
    match scope {
        Scope::Status(key) => if crate::library::has_status_key(next.statuses@, key@) {
            scope
        } else {
            Scope::All
        },
        Scope::Collection(id) => if next.source matches Some((_, m)) && exists|i: int|
            0 <= i < m.definitions.collections.len() && (#[trigger] m.definitions.collections@[i]).id == id
                && !m.definitions.collections@[i].archived {
            scope
        } else {
            Scope::All
        },
        _ => scope,
    }
}

/// The refreshed library with the choices that carry over: display preferences always,
/// and from the same folder also the scope, search, filters and selection.
pub open spec fn carried(old: Library, next: Library, same_folder: bool) -> Library {
    if same_folder {
        Library {
            show_hidden_games: old.show_hidden_games,
            display: old.display,
            filter_status: old.filter_status,
            filter_collection: old.filter_collection,
            filter_favorites: old.filter_favorites,
            query: old.query,
            scope: kept_scope(old.scope, next),
            selected: old.selected,
            ..next
        }
    } else {
        Library { show_hidden_games: old.show_hidden_games, display: old.display, ..next }
    }
}

fn live_collection(source: &Option<(String, crate::library::LibraryRevision)>, id: u128) -> (r: bool)
    ensures
        r == (source matches Some((_, m)) && exists|i: int|
            0 <= i < m.definitions.collections.len() && (#[trigger] m.definitions.collections@[i]).id == id
                && !m.definitions.collections@[i].archived),
{
    match source {
        Some((_, m)) => {
            let cs = &m.definitions.collections;
            let mut i: usize = 0;
            while i < cs.len()
                invariant
                    i <= cs.len(),
                    source matches Some(x) && x.1.definitions.collections@ == cs@,
                    forall|j: int| 0 <= j < i ==> !((#[trigger] cs@[j]).id == id && !cs@[j].archived),
                decreases cs.len() - i,
            {
                if cs[i].id == id && !cs[i].archived {
                    assert(cs@[i as int].id == id);
                    return true;
                }
                i += 1;
            }
            false
        },
        None => false,
    }
}

impl Library {
    /// Replaces the library with a refreshed one, keeping display preferences and, for
    /// the same folder, the scope, search, filters and selection where they still apply.
    pub fn replace(&mut self, next: Library, same_folder: bool)
        requires
            next.wf(),
        ensures
            final(self).wf(),
            final(self).same_inputs(&carried(*old(self), next, same_folder)),
            final(self).recomputed(carried(*old(self), next, same_folder).selected),
    {
        let mut next = next;
        let ghost given = next;
        next.show_hidden_games = self.show_hidden_games;
        next.display = self.display;
        if same_folder {
            next.filter_status = match &self.filter_status {
                Some(s) => Some(s.clone()),
                None => None,
            };
            next.filter_collection = self.filter_collection;
            next.filter_favorites = self.filter_favorites;
            next.query = self.query.clone();
            next.selected = self.selected;
            let scope = self.scope.dup();
            let keep = match &scope {
                Scope::Status(key) => known_status(&next.statuses, key.as_str()),
                Scope::Collection(id) => live_collection(&next.source, *id),
                _ => true,
            };
            next.scope = if keep {
                scope
            } else {
                Scope::All
            };
        }
        assert(next.same_inputs(&carried(*old(self), given, same_folder)));
        next.recompute();
        *self = next;
    }
}

} // verus!

verus! {

/// How a rating in half stars reads: `3.5 / 5`, or `Unrated`.
pub open spec fn rating_text(rating: Option<u8>) -> Seq<char> {
    match rating {
        None => "Unrated"@,
        Some(v) => crate::text::decimal((v / 2) as nat) + "."@ + crate::text::decimal(((v % 2) * 5) as nat) + " / 5"@,
    }
}

impl Game {
    /// The rating as stars out of five with one decimal.
    pub fn rating_label(&self) -> (r: String)
        ensures
            r@ == rating_text(self.rating),
    {
        match self.rating {
            None => String::from_str("Unrated"),
            Some(v) => {
                let mut s = String::new();
                crate::text::push_decimal(&mut s, (v / 2) as u64);
                s.append(".");
                crate::text::push_decimal(&mut s, ((v % 2) * 5) as u64);
                s.append(" / 5");
                s
            },
        }
    }
}

} // verus!

verus! {

/// Hidden games are in the hidden scope and in no other; every other game is among all games,
/// and each other scope only narrows all games.
pub proof fn law_hidden_games_leave_other_scopes(scope: Scope, g: Game)
    ensures
        in_scope(Scope::Hidden, g) != in_scope(Scope::All, g),
        !(scope is Hidden) && in_scope(scope, g) ==> in_scope(Scope::All, g),
{
}

} // verus!

verus! {

/// The collection names game `g` shows under definitions `m`: those of the collections
/// its record is in, or none without a record.
pub open spec fn names_under(m: crate::library::LibraryRevision, g: Game) -> Seq<Seq<char>> {
    match g.record {
        Some(r) => collection_names(m.definitions.collections@, r.game.personal.collections@),
        None => Seq::empty(),
    }
}

/// Collection `id` exists and is not archived in these definitions.
pub open spec fn live_in(m: crate::library::LibraryRevision, id: u128) -> bool {
    exists|i: int|
        0 <= i < m.definitions.collections.len() && (#[trigger] m.definitions.collections@[i]).id == id
            && !m.definitions.collections@[i].archived
}

/// The library after adopting saved definitions `m`, before any recomputation.
pub open spec fn adopted(old: Library, m: crate::library::LibraryRevision, new: Library) -> bool {
    &&& new.games.len() == old.games.len()
    &&& forall|i: int| 0 <= i < old.games.len() ==> #[trigger] new.games@[i] == (Game { collections: new.games@[i].collections, ..old.games@[i] })
        && strs(new.games@[i].collections@) == names_under(m, old.games@[i])
    &&& new.source == match old.source {
        Some((root, _)) => Some((root, m)),
        None => None::<(String, crate::library::LibraryRevision)>,
    }
}

impl Library {
    /// Takes library definitions saved from this library's folder: each game shows the
    /// collection names they give, and a collection scope whose collection is gone or
    /// archived returns to all games. Without a folder nothing changes.
    pub fn adopt_definitions(&mut self, saved: crate::library::LibraryRevision)
        requires
            old(self).wf(),
        ensures
            final(self).wf(),
            old(self).source is None ==> *final(self) == *old(self),
            old(self).source is Some && !(old(self).scope matches Scope::Collection(id) && !live_in(saved, id)) ==> {
                &&& exists|n: Library| adopted(*old(self), saved, n) && final(self).same_inputs(&Library { games: n.games, source: n.source, ..*old(self) })
                &&& final(self).visible == old(self).visible
                &&& final(self).groups == old(self).groups
                &&& final(self).selected == old(self).selected
            },
            old(self).source is Some && (old(self).scope matches Scope::Collection(id) && !live_in(saved, id)) ==> {
                &&& exists|n: Library| adopted(*old(self), saved, n) && final(self).same_inputs(&Library { games: n.games, source: n.source, scope: Scope::All, ..*old(self) })
                &&& final(self).recomputed(old(self).selected)
            },
    {
        let root = match &self.source {
            Some((root, _)) => root.clone(),
            None => {
                return;
            },
        };
        let ghost orig = *self;
        let mut i: usize = 0;
        while i < self.games.len()
            invariant
                i <= self.games.len(),
                self.games.len() == orig.games.len(),
                self.same_inputs(&Library { games: self.games, ..orig }),
                self.visible == orig.visible,
                self.groups == orig.groups,
                self.selected == orig.selected,
                forall|k: int| 0 <= k < i ==> #[trigger] self.games@[k] == (Game { collections: self.games@[k].collections, ..orig.games@[k] })
                    && strs(self.games@[k].collections@) == names_under(saved, orig.games@[k]),
                forall|k: int| i <= k < self.games.len() ==> #[trigger] self.games@[k] == orig.games@[k],
            decreases self.games.len() - i,
        {
            let ghost before = self.games@;
            let mut g = self.games.remove(i);
            let names = match &g.record {
                Some(r) => names_in(&saved.definitions.collections, &r.game.personal.collections),
                None => Vec::new(),
            };
            g.collections = names;
            self.games.insert(i, g);
            proof {
                assert(self.games@ == before.update(i as int, g));
                assert(strs(Seq::<String>::empty()) =~= Seq::<Seq<char>>::empty());
            }
            i += 1;
        }
        let live = match &self.scope {
            Scope::Collection(id) => {
                let cs = &saved.definitions.collections;
                let mut found = false;
                let mut k: usize = 0;
                while k < cs.len()
                    invariant
                        k <= cs.len(),
                        *cs == saved.definitions.collections,
                        found == exists|x: int| 0 <= x < k && (#[trigger] cs@[x]).id == *id && !cs@[x].archived,
                    decreases cs.len() - k,
                {
                    if cs[k].id == *id && !cs[k].archived {
                        found = true;
                    }
                    k += 1;
                }
                found
            },
            _ => true,
        };
        self.source = Some((root, saved));
        let ghost n = *self;
        assert(adopted(orig, saved, n));
        if !live {
            self.scope = Scope::All;
            self.recompute();
        }
    }
}

} // verus!

verus! {

/// A conflict of game `id` is listed.
pub open spec fn conflicted(conflicts: Seq<(u128, String)>, id: u128) -> bool {
    exists|k: int| 0 <= k < conflicts.len() && (#[trigger] conflicts[k]).0 == id
}

pub open spec fn failures_view(f: Seq<(u128, String)>) -> Seq<(u128, Seq<char>)> {
    f.map_values(|e: (u128, String)| (e.0, e.1@))
}

/// How a bulk edit splits a selection, in order: the positions of the games it edits from
/// the records the view holds, and the games it refuses with the reason.
pub open spec fn bulk_split(games: Seq<Game>, conflicts: Seq<(u128, String)>, sel: Seq<u128>) -> (Seq<usize>, Seq<(u128, Seq<char>)>)
    decreases sel.len(),
{
    if sel.len() == 0 {
        (Seq::empty(), Seq::empty())
    } else {
        let (t, f) = bulk_split(games, conflicts, sel.drop_last());
        let id = sel.last();
        if conflicted(conflicts, id) {
            (t, f.push((id, "Resolve this game's conflict first"@)))
        } else {
            match first_game(games, id) {
                Some(i) => if games[i].record is Some {
                    (t.push(i as usize), f)
                } else {
                    (t, f.push((id, "Game is no longer available"@)))
                },
                None => (t, f.push((id, "Game is no longer available"@))),
            }
        }
    }
}

proof fn lemma_first_with_id_unique(games: Seq<Game>, id: u128, a: int, b: int)
    requires
        first_with_id(games, id, a),
        first_with_id(games, id, b),
    ensures
        a == b,
{
    if a < b {
        assert(games[a].id == id);
    } else if b < a {
        assert(games[b].id == id);
    }
}

fn is_conflicted(conflicts: &Vec<(u128, String)>, id: u128) -> (r: bool)
    ensures
        r == conflicted(conflicts@, id),
{
    let mut k: usize = 0;
    while k < conflicts.len()
        invariant
            k <= conflicts.len(),
            forall|x: int| 0 <= x < k ==> (#[trigger] conflicts@[x]).0 != id,
        decreases conflicts.len() - k,
    {
        if conflicts[k].0 == id {
            return true;
        }
        k += 1;
    }
    false
}

impl Library {
    /// Splits a bulk selection: a game with a conflict, or no longer held with its record,
    /// is refused with the reason; every other game is edited from the record the view holds.
    pub fn bulk_targets(&self, selection: &Vec<u128>) -> (r: (Vec<usize>, Vec<(u128, String)>))
        ensures
            r.0@ == bulk_split(self.games@, self.conflicts@, selection@).0,
            failures_view(r.1@) == bulk_split(self.games@, self.conflicts@, selection@).1,
            forall|k: int| 0 <= k < r.0.len() ==> r.0@[k] < self.games.len() && (#[trigger] self.games@[r.0@[k] as int]).record is Some,
    {
        let mut targets: Vec<usize> = Vec::new();
        let mut failed: Vec<(u128, String)> = Vec::new();
        let mut s: usize = 0;
        while s < selection.len()
            invariant
                s <= selection.len(),
                targets@ == bulk_split(self.games@, self.conflicts@, selection@.take(s as int)).0,
                failures_view(failed@) == bulk_split(self.games@, self.conflicts@, selection@.take(s as int)).1,
                forall|k: int| 0 <= k < targets.len() ==> targets@[k] < self.games.len() && (#[trigger] self.games@[targets@[k] as int]).record is Some,
            decreases selection.len() - s,
        {
            let id = selection[s];
            let ghost prev = selection@.take(s as int);
            assert(selection@.take(s + 1).drop_last() =~= prev);
            assert(selection@.take(s + 1).last() == id);
            let ghost fv = failures_view(failed@);
            if is_conflicted(&self.conflicts, id) {
                failed.push((id, String::from_str("Resolve this game's conflict first")));
                assert(failures_view(failed@) =~= fv.push((id, "Resolve this game's conflict first"@)));
            } else {
                match first_index(&self.games, id) {
                    Some(i) => {
                        proof {
                            assert(first_with_id(self.games@, id, i as int));
                            let c = choose|c: int| first_with_id(self.games@, id, c);
                            lemma_first_with_id_unique(self.games@, id, i as int, c);
                        }
                        if self.games[i].record.is_some() {
                            targets.push(i);
                        } else {
                            failed.push((id, String::from_str("Game is no longer available")));
                            assert(failures_view(failed@) =~= fv.push((id, "Game is no longer available"@)));
                        }
                    },
                    None => {
                        failed.push((id, String::from_str("Game is no longer available")));
                        assert(failures_view(failed@) =~= fv.push((id, "Game is no longer available"@)));
                    },
                }
            }
            s += 1;
        }
        assert(selection@.take(selection.len() as int) =~= selection@);
        (targets, failed)
    }
}

/// What a bulk edit reports: how many games were updated, and with any refusals how many
/// were not, with the first reason.
pub open spec fn bulk_text(saved: usize, failed: Seq<(u128, Seq<char>)>) -> Seq<char> {
    if failed.len() == 0 {
        crate::text::decimal(saved as nat) + " games updated."@
    } else {
        crate::text::decimal(saved as nat) + " updated. "@ + crate::text::decimal(failed.len()) + " could not be updated: "@
            + failed[0].1 + ". Refresh and try again."@
    }
}

pub fn bulk_message(saved: usize, failed: &Vec<(u128, String)>) -> (r: String)
    ensures
        r@ == bulk_text(saved, failures_view(failed@)),
{
    let mut m = String::new();
    crate::text::push_decimal(&mut m, saved as u64);
    if failed.len() == 0 {
        m.append(" games updated.");
    } else {
        m.append(" updated. ");
        crate::text::push_decimal(&mut m, failed.len() as u64);
        m.append(" could not be updated: ");
        m.append(failed[0].1.as_str());
        m.append(". Refresh and try again.");
    }
    m
}

} // verus!

verus! {

/// `t` occurs in `s` as a contiguous part.
pub open spec fn has_part(s: Seq<char>, t: Seq<char>) -> bool {
    exists|k: int| 0 <= k && k + t.len() <= s.len() && #[trigger] s.subrange(k, k + t.len()) == t
}

proof fn lemma_part_in_front(s: Seq<char>, u: Seq<char>, t: Seq<char>)
    requires
        has_part(s, t),
    ensures
        has_part(s + u, t),
{
    let k = choose|k: int| 0 <= k && k + t.len() <= s.len() && #[trigger] s.subrange(k, k + t.len()) == t;
    assert((s + u).subrange(k, k + t.len()) =~= s.subrange(k, k + t.len()));
}

proof fn lemma_part_behind(u: Seq<char>, s: Seq<char>, t: Seq<char>)
    requires
        has_part(s, t),
    ensures
        has_part(u + s, t),
{
    let k = choose|k: int| 0 <= k && k + t.len() <= s.len() && #[trigger] s.subrange(k, k + t.len()) == t;
    assert((u + s).subrange(u.len() + k, u.len() + k + t.len()) =~= s.subrange(k, k + t.len()));
}

proof fn lemma_whole_part(t: Seq<char>)
    ensures
        has_part(t, t),
{
    assert(t.subrange(0int, 0int + t.len()) =~= t);
}

/// Every tag occurs in the tags joined by spaces.
proof fn lemma_joined_has_tags(tags: Seq<String>, i: int)
    requires
        0 <= i < tags.len(),
    ensures
        has_part(joined(tags), tags[i]@),
    decreases tags.len(),
{
    if tags.len() == 1 {
        lemma_whole_part(tags[0]@);
    } else if i == tags.len() - 1 {
        lemma_whole_part(tags.last()@);
        lemma_part_behind(joined(tags.drop_last()) + " "@, tags.last()@, tags.last()@);
        assert(joined(tags) == (joined(tags.drop_last()) + " "@) + tags.last()@);
    } else {
        lemma_joined_has_tags(tags.drop_last(), i);
        assert(tags.drop_last()[i] == tags[i]);
        lemma_part_in_front(joined(tags.drop_last()), " "@ + tags.last()@, tags[i]@);
        assert(joined(tags) =~= joined(tags.drop_last()) + (" "@ + tags.last()@));
    }
}

/// The search looks in the lowercased form of one text that holds the title and every one
/// of the game's tags, so a query that is a whole tag is looked for where that tag stands.
pub proof fn law_search_covers_title_and_every_tag(g: Game)
    ensures
        exists|w: Seq<char>| #![trigger lowercase(w)]
            search_text(g) == lowercase(w) && has_part(w, g.title@)
                && forall|i: int| 0 <= i < g.tags.len() ==> has_part(w, #[trigger] g.tags@[i]@),
{
    let w = g.title@ + " "@ + joined(g.tags@);
    assert(search_text(g) == lowercase(w));
    lemma_whole_part(g.title@);
    lemma_part_in_front(g.title@, " "@ + joined(g.tags@), g.title@);
    assert(w =~= g.title@ + (" "@ + joined(g.tags@)));
    assert forall|i: int| 0 <= i < g.tags.len() implies has_part(w, #[trigger] g.tags@[i]@) by {
        lemma_joined_has_tags(g.tags@, i);
        lemma_part_behind(g.title@ + " "@, joined(g.tags@), g.tags@[i]@);
    }
}

/// Stepping the selection moves it by exactly `delta` slots while that stays among the
/// `n` visible slots, and otherwise stops at the first or the last slot; stepping back by
/// one and forward by one from an inner slot returns to it.
pub proof fn law_step_moves_by_delta_and_stops_at_edges(s: int, delta: int, n: int)
    requires
        0 <= s < n,
    ensures
        0 <= stepped(s, delta, n) < n,
        0 <= s + delta < n ==> stepped(s, delta, n) == s + delta,
        s + delta < 0 ==> stepped(s, delta, n) == 0,
        s + delta >= n ==> stepped(s, delta, n) == n - 1,
        0 < s ==> stepped(stepped(s, -1, n), 1, n) == s,
        s < n - 1 ==> stepped(stepped(s, 1, n), -1, n) == s,
{
}

} // verus!
