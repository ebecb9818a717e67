//! Steam wire checks and the decisions of a sequential, resumable import.
//! Requests and JSON decoding happen in the shell; these rules
//! decide what a response means and what the import does next.
use vstd::prelude::*;
use vstd::string::*;

use crate::records::{opt_str, path_char_ok, SteamMetadata};
use crate::text::{
    all_digits, decimal, ends_with, has_prefix, has_suffix, is_ascii_alnum, is_ascii_digit, is_blank,
    only_digits, push_decimal, starts_with, str_eq, strip_prefix, trim, trimmed,
};

verus! {

/// One owned game as the Steam Web API lists it.
#[derive(Debug)]
pub struct OwnedGame {
    pub appid: u32,
    pub name: String,
    pub playtime_forever: u32,
}

/// Why the owned-games response cannot be used.
#[derive(Debug, Clone, Copy, PartialEq, Eq, Structural)]
pub enum OwnedError {
    /// The response has no game count: the profile hides game details or the key is wrong.
    NotExposed,
    /// The game list is missing, malformed or shorter or longer than the count.
    Incomplete,
    /// A game has App ID 0, a blank name, or repeats an App ID.
    InvalidGames,
}

pub open spec fn app_ids_unique(g: Seq<OwnedGame>) -> bool {
    forall|i: int, j: int| 0 <= i < j < g.len() ==> g[i].appid != g[j].appid
}

pub open spec fn games_sound(g: Seq<OwnedGame>) -> bool {
    &&& forall|i: int| 0 <= i < g.len() ==> (#[trigger] g[i]).appid > 0 && trimmed(g[i].name@).len() > 0
    &&& app_ids_unique(g)
}

/// What the owned-games response means, given its `game_count`, whether it has a `games`
/// field at all, and that field decoded as a list of games (None when it does not decode).
pub open spec fn owned_outcome(count: Option<u64>, has_games: bool, games: Option<Seq<OwnedGame>>) -> Result<Seq<OwnedGame>, OwnedError> {
    match count {
        None => Err(OwnedError::NotExposed),
        Some(n) => if n == 0 && !has_games {
            Ok(Seq::empty())
        } else {
            match games {
                None => Err(OwnedError::Incomplete),
                Some(g) => if g.len() != n {
                    Err(OwnedError::Incomplete)
                } else if !games_sound(g) {
                    Err(OwnedError::InvalidGames)
                } else {
                    Ok(g)
                },
            }
        },
    }
}

fn games_ok(g: &Vec<OwnedGame>) -> (r: bool)
    ensures
        r == games_sound(g@),
{
    let mut i: usize = 0;
    while i < g.len()
        invariant
            i <= g.len(),
            forall|a: int| 0 <= a < i ==> (#[trigger] g@[a]).appid > 0 && trimmed(g@[a].name@).len() > 0,
            forall|a: int, b: int| 0 <= a < b < g.len() && a < i ==> g@[a].appid != g@[b].appid,
        decreases g.len() - i,
    {
        if g[i].appid == 0 || is_blank(g[i].name.as_str()) {
            return false;
        }
        let mut j: usize = i + 1;
        while j < g.len()
            invariant
                i < g.len(),
                i + 1 <= j <= g.len(),
                forall|a: int, b: int| 0 <= a < b < g.len() && a < i ==> g@[a].appid != g@[b].appid,
                forall|b: int| i < b < j ==> g@[i as int].appid != g@[b].appid,
            decreases g.len() - j,
        {
            if g[i].appid == g[j].appid {
                return false;
            }
            j += 1;
        }
        i += 1;
    }
    true
}

/// Checks a decoded owned-games response: an empty library, a private one, a partial
/// list and duplicate games are told apart.
pub fn check_owned(count: Option<u64>, has_games: bool, games: Option<Vec<OwnedGame>>) -> (r: Result<Vec<OwnedGame>, OwnedError>)
    ensures
        match (r, owned_outcome(count, has_games, match games { Some(g) => Some(g@), None => None })) {
            (Ok(a), Ok(b)) => a@ == b,
            (Err(a), Err(b)) => a == b,
            _ => false,
        },
{
    let n = match count {
        None => {
            return Err(OwnedError::NotExposed);
        },
        Some(n) => n,
    };
    if n == 0 && !has_games {
        return Ok(Vec::new());
    }
    let g = match games {
        None => {
            return Err(OwnedError::Incomplete);
        },
        Some(g) => g,
    };
    if g.len() as u64 != n {
        return Err(OwnedError::Incomplete);
    }
    if !games_ok(&g) {
        return Err(OwnedError::InvalidGames);
    }
    Ok(g)
}

impl OwnedError {
    pub fn message(&self) -> (r: String)
        ensures
            r@ == match *self {
                OwnedError::NotExposed => "Steam did not expose this library. Check Game details visibility and your key."@,
                OwnedError::Incomplete => "Owned games response is incomplete"@,
                OwnedError::InvalidGames => "Owned games response has invalid or duplicate games"@,
            },
    {
        match self {
            OwnedError::NotExposed => String::from_str(
                "Steam did not expose this library. Check Game details visibility and your key.",
            ),
            OwnedError::Incomplete => String::from_str("Owned games response is incomplete"),
            OwnedError::InvalidGames => String::from_str(
                "Owned games response has invalid or duplicate games",
            ),
        }
    }
}

/// `s` without its trailing slashes, as `trim_end_matches('/')` leaves it.
pub open spec fn without_trailing_slashes(s: Seq<char>) -> Seq<char>
    decreases s.len(),
{
    if s.len() > 0 && s.last() == '/' {
        without_trailing_slashes(s.drop_last())
    } else {
        s
    }
}

fn trim_trailing_slashes(s: &str) -> (r: &str)
    ensures
        r@ == without_trailing_slashes(s@),
{
    let n = s.unicode_len();
    let mut j: usize = n;
    assert(s@.subrange(0, n as int) =~= s@);
    while j > 0 && s.get_char(j - 1) == '/'
        invariant
            n == s@.len(),
            j <= n,
            without_trailing_slashes(s@) == without_trailing_slashes(s@.subrange(0, j as int)),
        decreases j,
    {
        proof {
            let t = s@.subrange(0, j as int);
            assert(t.last() == s@[j - 1]);
            assert(t.drop_last() =~= s@.subrange(0, j - 1));
        }
        j -= 1;
    }
    proof {
        let t = s@.subrange(0, j as int);
        if j > 0 {
            assert(t.last() == s@[j - 1]);
        }
    }
    s.substring_char(0, j)
}

/// A SteamID64: exactly seventeen ASCII digits.
pub open spec fn steam_id64(s: Seq<char>) -> bool {
    s.len() == 17 && all_digits(s)
}

pub open spec fn vanity_char(c: char) -> bool {
    is_ascii_alnum(c) || c == '_' || c == '-'
}

/// A custom profile name: 1 to 100 of ASCII letters, digits, `_` and `-`.
pub open spec fn vanity_ok(s: Seq<char>) -> bool {
    0 < s.len() <= 100 && forall|i: int| 0 <= i < s.len() ==> vanity_char(#[trigger] s[i])
}

/// What the user typed into the Steam profile field refers to.
#[derive(Debug)]
pub enum AccountInput {
    /// A SteamID64, usable as it is.
    Id(String),
    /// A custom profile name that Steam must resolve to an ID.
    Vanity(String),
}

#[derive(Debug, Clone, Copy, PartialEq, Eq, Structural)]
pub enum AccountError {
    /// Neither a profile link, a SteamID64 nor a custom profile name.
    Unrecognized,
    /// Steam resolved the name to something that is not a SteamID64.
    InvalidAccount,
    /// Steam did not find the profile.
    NotFound,
}

impl AccountError {
    pub fn message(&self) -> (r: String)
        ensures
            r@ == match *self {
                AccountError::Unrecognized => "Enter a Steam profile link or SteamID64"@,
                AccountError::InvalidAccount => "Steam returned an invalid account"@,
                AccountError::NotFound => "Steam profile was not found"@,
            },
    {
        match self {
            AccountError::Unrecognized => String::from_str("Enter a Steam profile link or SteamID64"),
            AccountError::InvalidAccount => String::from_str("Steam returned an invalid account"),
            AccountError::NotFound => String::from_str("Steam profile was not found"),
        }
    }
}

pub open spec fn after_prefix(s: Seq<char>, p: Seq<char>) -> Seq<char> {
    s.subrange(p.len() as int, s.len() as int)
}

/// The meaning of the profile field: a SteamID64, a profile link holding one, or a custom
/// name given alone or in a `/id/` link. Surrounding white space and trailing slashes are ignored.
pub open spec fn account_input(raw: Seq<char>) -> Result<(bool, Seq<char>), AccountError> {
    let input = without_trailing_slashes(trimmed(raw));
    let https_profiles = "https://steamcommunity.com/profiles/"@;
    let http_profiles = "http://steamcommunity.com/profiles/"@;
    let https_id = "https://steamcommunity.com/id/"@;
    let http_id = "http://steamcommunity.com/id/"@;
    if steam_id64(input) {
        Ok((true, input))
    } else if starts_with(input, https_profiles) || starts_with(input, http_profiles) {
        let id = if starts_with(input, https_profiles) {
            after_prefix(input, https_profiles)
        } else {
            after_prefix(input, http_profiles)
        };
        if steam_id64(id) {
            Ok((true, id))
        } else {
            Err(AccountError::Unrecognized)
        }
    } else {
        let vanity = if starts_with(input, https_id) {
            after_prefix(input, https_id)
        } else if starts_with(input, http_id) {
            after_prefix(input, http_id)
        } else {
            input
        };
        if vanity_ok(vanity) {
            Ok((false, vanity))
        } else {
            Err(AccountError::Unrecognized)
        }
    }
}

fn is_vanity(s: &str) -> (r: bool)
    ensures
        r == vanity_ok(s@),
{
    let n = s.unicode_len();
    if n == 0 || n > 100 {
        return false;
    }
    let mut i: usize = 0;
    while i < n
        invariant
            n == s@.len(),
            i <= n,
            forall|k: int| 0 <= k < i ==> vanity_char(#[trigger] s@[k]),
        decreases n - i,
    {
        let c = s.get_char(i);
        if !(('0' <= c && c <= '9') || ('a' <= c && c <= 'z') || ('A' <= c && c <= 'Z') || c == '_'
            || c == '-') {
            return false;
        }
        i += 1;
    }
    true
}

fn is_id64(s: &str) -> (r: bool)
    ensures
        r == steam_id64(s@),
{
    s.unicode_len() == 17 && only_digits(s)
}

pub fn parse_account_input(raw: &str) -> (r: Result<AccountInput, AccountError>)
    ensures
        match (r, account_input(raw@)) {
            (Ok(AccountInput::Id(s)), Ok((true, v))) => s@ == v,
            (Ok(AccountInput::Vanity(s)), Ok((false, v))) => s@ == v,
            (Err(a), Err(b)) => a == b,
            _ => false,
        },
{
    let input = trim_trailing_slashes(trim(raw));
    if is_id64(input) {
        return Ok(AccountInput::Id(String::from_str(input)));
    }
    let profile = match strip_prefix(input, "https://steamcommunity.com/profiles/") {
        Some(id) => Some(id),
        None => strip_prefix(input, "http://steamcommunity.com/profiles/"),
    };
    if let Some(id) = profile {
        if is_id64(id) {
            return Ok(AccountInput::Id(String::from_str(id)));
        }
        return Err(AccountError::Unrecognized);
    }
    let vanity = match strip_prefix(input, "https://steamcommunity.com/id/") {
        Some(v) => v,
        None => match strip_prefix(input, "http://steamcommunity.com/id/") {
            Some(v) => v,
            None => input,
        },
    };
    if is_vanity(vanity) {
        Ok(AccountInput::Vanity(String::from_str(vanity)))
    } else {
        Err(AccountError::Unrecognized)
    }
}

/// Checks the SteamID64 that Steam resolved a custom name to.
pub fn check_resolved_account(id: Option<&str>) -> (r: Result<String, AccountError>)
    ensures
        match id {
            None => r == Err::<String, AccountError>(AccountError::NotFound),
            Some(s) => if steam_id64(s@) {
                r matches Ok(v) && v@ == s@
            } else {
                r == Err::<String, AccountError>(AccountError::InvalidAccount)
            },
        },
{
    match id {
        None => Err(AccountError::NotFound),
        Some(s) => if is_id64(s) {
            Ok(String::from_str(s))
        } else {
            Err(AccountError::InvalidAccount)
        },
    }
}

pub open spec fn artwork_char(c: char) -> bool {
    is_ascii_alnum(c) || c == '/' || c == '_' || c == '-' || c == '.'
}

/// A relative artwork path that Steam's store item assets may use: not empty, made of ASCII
/// letters, digits, `/`, `_`, `-` and `.`, with no empty, `.` or `..` part.
pub open spec fn artwork_path_ok(s: Seq<char>) -> bool {
    &&& s.len() > 0
    &&& forall|i: int| 0 <= i < s.len() ==> artwork_char(#[trigger] s[i]) && path_char_ok(s, i)
}

pub open spec fn artwork_address(id: u32, path: Seq<char>) -> Seq<char> {
    "https://shared.akamai.steamstatic.com/store_item_assets/steam/apps/"@ + decimal(id as nat)
        + "/"@ + path
}

/// The store asset address of an artwork path, if the path stays inside the game's folder.
pub fn artwork_url(id: u32, path: &str) -> (r: Option<String>)
    ensures
        match r {
            Some(u) => artwork_path_ok(path@) && u@ == artwork_address(id, path@),
            None => !artwork_path_ok(path@),
        },
{
    let n = path.unicode_len();
    if n == 0 {
        return None;
    }
    let mut i: usize = 0;
    while i < n
        invariant
            n == path@.len(),
            i <= n,
            forall|k: int| 0 <= k < i ==> artwork_char(#[trigger] path@[k]) && path_char_ok(path@, k),
        decreases n - i,
    {
        let c = path.get_char(i);
        let allowed = ('0' <= c && c <= '9') || ('a' <= c && c <= 'z') || ('A' <= c && c <= 'Z')
            || c == '/' || c == '_' || c == '-' || c == '.';
        let mut ok = allowed;
        if ok && c == '/' {
            if i == 0 || i + 1 >= n || path.get_char(i + 1) == '/' {
                ok = false;
            }
        }
        if ok && c == '.' && (i == 0 || path.get_char(i - 1) == '/') {
            if i + 1 == n {
                ok = false;
            } else {
                let d = path.get_char(i + 1);
                if d == '/' || (d == '.' && (i + 2 == n || path.get_char(i + 2) == '/')) {
                    ok = false;
                }
            }
        }
        if !ok {
            assert(!(artwork_char(path@[i as int]) && path_char_ok(path@, i as int)));
            return None;
        }
        assert(artwork_char(path@[i as int]) && path_char_ok(path@, i as int));
        i += 1;
    }
    let mut url = String::from_str("https://shared.akamai.steamstatic.com/store_item_assets/steam/apps/");
    push_decimal(&mut url, id as u64);
    url.append("/");
    url.append(path);
    Some(url)
}

} // verus!

verus! {

/// The parts of a parsed web address that the header check reads.
#[derive(Debug)]
pub struct UrlParts {
    pub scheme: String,
    pub host: Option<String>,
    pub username: String,
    pub password: Option<String>,
    pub port: Option<u16>,
    pub path: String,
}

pub open spec fn parts_view(p: UrlParts) -> (Seq<char>, Option<Seq<char>>, Seq<char>, Option<Seq<char>>, Option<u16>, Seq<char>) {
    (p.scheme@, opt_str(p.host), p.username@, opt_str(p.password), p.port, p.path@)
}

/// What the WHATWG URL parser of the `url` crate makes of a text: scheme, host, user name,
/// password, explicit port and path, or None when the text is no absolute URL.
pub uninterp spec fn url_fields(text: Seq<char>) -> Option<(Seq<char>, Option<Seq<char>>, Seq<char>, Option<Seq<char>>, Option<u16>, Seq<char>)>;

/// Calls `reqwest::Url::parse` (the `url` crate's `Url::parse`) and copies out the parts
/// that are read; the result is named by `url_fields` of the text.
#[verifier::external_body]
fn parse_url(text: &str) -> (r: Option<UrlParts>)
    ensures
        match r {
            Some(p) => url_fields(text@) == Some(parts_view(p)),
            None => url_fields(text@) is None,
        },
{
    reqwest::Url::parse(text).ok().map(|u| UrlParts {
        scheme: u.scheme().to_string(),
        host: u.host_str().map(|h| h.to_string()),
        username: u.username().to_string(),
        password: u.password().map(|p| p.to_string()),
        port: u.port(),
        path: u.path().to_string(),
    })
}

/// A header image address that Steam serves for this game: HTTPS on a `steamstatic.com`
/// host, no credentials, no explicit port, under the game's own folder.
pub open spec fn header_trusted(id: u32, p: (Seq<char>, Option<Seq<char>>, Seq<char>, Option<Seq<char>>, Option<u16>, Seq<char>)) -> bool {
    let (scheme, host, user, password, port, path) = p;
    &&& scheme == "https"@
    &&& host matches Some(h) && (h == "steamstatic.com"@ || ends_with(h, ".steamstatic.com"@))
    &&& user.len() == 0
    &&& password is None
    &&& port is None
    &&& (starts_with(path, "/store_item_assets/steam/apps/"@ + decimal(id as nat) + "/"@)
        || starts_with(path, "/steam/apps/"@ + decimal(id as nat) + "/"@))
}

/// Decides on already parsed address parts.
pub fn parts_trusted(id: u32, p: &UrlParts) -> (r: bool)
    ensures
        r == header_trusted(id, parts_view(*p)),
{
    let host_ok = match &p.host {
        Some(h) => str_eq(h.as_str(), "steamstatic.com") || has_suffix(h.as_str(), ".steamstatic.com"),
        None => false,
    };
    let mut store = String::from_str("/store_item_assets/steam/apps/");
    push_decimal(&mut store, id as u64);
    store.append("/");
    let mut apps = String::from_str("/steam/apps/");
    push_decimal(&mut apps, id as u64);
    apps.append("/");
    str_eq(p.scheme.as_str(), "https") && host_ok && p.username.unicode_len() == 0
        && p.password.is_none() && p.port.is_none() && (has_prefix(p.path.as_str(), store.as_str())
        || has_prefix(p.path.as_str(), apps.as_str()))
}

/// An older store response's header image may be fetched only from Steam's own hosts.
pub fn trusted_header(id: u32, value: &str) -> (r: bool)
    ensures
        r == (url_fields(value@) matches Some(p) && header_trusted(id, p)),
{
    match parse_url(value) {
        Some(p) => parts_trusted(id, &p),
        None => false,
    }
}

/// A four-digit year starts at `a`: a run of exactly four ASCII digits.
pub open spec fn year_at(s: Seq<char>, a: int) -> bool {
    &&& 0 <= a && a + 4 <= s.len()
    &&& a == 0 || !is_ascii_digit(s[a - 1])
    &&& forall|k: int| a <= k < a + 4 ==> is_ascii_digit(#[trigger] s[k])
    &&& a + 4 == s.len() || !is_ascii_digit(s[a + 4])
}

/// The release year in a store date such as `12 Sep, 2020`: the first run of exactly four digits.
pub fn release_year(date: &str) -> (r: Option<String>)
    ensures
        match r {
            Some(y) => exists|a: int| year_at(date@, a) && y@ == date@.subrange(a, a + 4)
                && forall|b: int| 0 <= b < a ==> !year_at(date@, b),
            None => forall|a: int| !year_at(date@, a),
        },
{
    let n = date.unicode_len();
    let mut a: usize = 0;
    while n >= 4 && a <= n - 4
        invariant
            n == date@.len(),
            forall|b: int| 0 <= b < a ==> !year_at(date@, b),
        decreases n - a,
    {
        let start = a == 0 || !('0' <= date.get_char(a - 1) && date.get_char(a - 1) <= '9');
        let end = a + 4 == n || !('0' <= date.get_char(a + 4) && date.get_char(a + 4) <= '9');
        let run = date.substring_char(a, a + 4);
        let digits = only_digits(run);
        proof {
            if digits {
                assert forall|k: int| a <= k < a + 4 implies is_ascii_digit(#[trigger] date@[k]) by {
                    assert(run@[k - a] == date@[k]);
                }
            } else {
                let k = choose|k: int| 0 <= k < run@.len() && !is_ascii_digit(#[trigger] run@[k]);
                assert(run@[k] == date@[a + k]);
            }
            assert((start && end && digits) == year_at(date@, a as int));
        }
        if start && end && digits {
            let y = String::from_str(run);
            assert(y@ == date@.subrange(a as int, a + 4));
            return Some(y);
        }
        a += 1;
    }
    proof {
        assert forall|b: int| !year_at(date@, b) by {
            if b >= a {
                assert(!(b + 4 <= date@.len()));
            }
        }
    }
    None
}

} // verus!

verus! {

/// At most this many problems are listed with a sync result; later ones only count.
pub const MAX_ISSUES: usize = 20;

/// Progress of one sync, shown while it runs and kept as its result.
#[derive(Debug)]
pub struct SyncProgress {
    pub message: String,
    pub imported: usize,
    pub failures: usize,
    pub cancelled: bool,
    pub issues: Vec<String>,
}

pub open spec fn strings_view(s: Seq<String>) -> Seq<Seq<char>> {
    s.map_values(|x: String| x@)
}

/// The lines joined by line breaks.
pub open spec fn joined_lines(lines: Seq<Seq<char>>) -> Seq<char>
    decreases lines.len(),
{
    if lines.len() == 0 {
        Seq::empty()
    } else if lines.len() == 1 {
        lines[0]
    } else {
        joined_lines(lines.drop_last()) + "\n"@ + lines.last()
    }
}

/// The closing message: cancelled, finished with problems, or done; then the listed problems.
pub open spec fn final_message(imported: usize, failures: usize, cancelled: bool, issues: Seq<Seq<char>>) -> Seq<char> {
    let head = if cancelled {
        "Sync cancelled. Saved progress stays."@
    } else if failures > 0 {
        "Sync finished \u{b7} "@ + decimal(imported as nat) + " games \u{b7} "@ + decimal(failures as nat)
            + " items need retry or conflict review"@
    } else {
        "Synced "@ + decimal(imported as nat) + " games"@
    };
    if issues.len() == 0 {
        head
    } else {
        head + "\n"@ + joined_lines(issues)
    }
}

pub open spec fn stage_name(stage: nat) -> Seq<char> {
    if stage == 0 {
        "description"@
    } else if stage == 1 {
        "reviews"@
    } else {
        "cover"@
    }
}

impl SteamMetadata {
    /// Stage 0 (store details), 1 (reviews) or 2 (cover) has not completed yet.
    pub fn needs(&self, stage: usize) -> (r: bool)
        requires
            stage < 3,
        ensures
            r == !(if stage == 0 {
                self.details_complete
            } else if stage == 1 {
                self.reviews_complete
            } else {
                self.cover_complete
            }),
    {
        if stage == 0 {
            !self.details_complete
        } else if stage == 1 {
            !self.reviews_complete
        } else {
            !self.cover_complete
        }
    }
}

impl SyncProgress {
    pub fn start() -> (r: Self)
        ensures
            r.message@ == "Reading Steam library\u{2026}"@,
            r.imported == 0,
            r.failures == 0,
            !r.cancelled,
            r.issues.len() == 0,
    {
        SyncProgress {
            message: String::from_str("Reading Steam library\u{2026}"),
            imported: 0,
            failures: 0,
            cancelled: false,
            issues: Vec::new(),
        }
    }

    /// Counts one imported game.
    pub fn record_import(&mut self)
        requires
            old(self).imported < usize::MAX,
        ensures
            *final(self) == (SyncProgress { imported: (old(self).imported + 1) as usize, ..*old(self) }),
    {
        self.imported = self.imported + 1;
    }

    /// Counts a failure; its description is listed while fewer than `MAX_ISSUES` are.
    pub fn record_failure(&mut self, issue: String)
        requires
            old(self).failures < usize::MAX,
        ensures
            final(self).failures == old(self).failures + 1,
            final(self).imported == old(self).imported,
            final(self).cancelled == old(self).cancelled,
            final(self).message == old(self).message,
            final(self).issues@ == if old(self).issues.len() < MAX_ISSUES {
                old(self).issues@.push(issue)
            } else {
                old(self).issues@
            },
    {
        self.failures = self.failures + 1;
        if self.issues.len() < MAX_ISSUES {
            self.issues.push(issue);
        }
    }

    /// The message while games are imported.
    pub fn import_message(&mut self, total: usize)
        ensures
            final(self).message@ == "Imported "@ + decimal(old(self).imported as nat) + " of "@
                + decimal(total as nat) + " games \u{b7} "@ + decimal(old(self).failures as nat)
                + " need attention"@,
            *final(self) == (SyncProgress { message: final(self).message, ..*old(self) }),
    {
        let mut m = String::from_str("Imported ");
        push_decimal(&mut m, self.imported as u64);
        m.append(" of ");
        push_decimal(&mut m, total as u64);
        m.append(" games \u{b7} ");
        push_decimal(&mut m, self.failures as u64);
        m.append(" need attention");
        self.message = m;
    }

    /// The message while details of the imported games load.
    pub fn details_message(&mut self, done: usize, total: usize)
        ensures
            final(self).message@ == "Loading details \u{b7} "@ + decimal(done as nat) + " of "@
                + decimal(total as nat) + " games \u{b7} "@ + decimal(old(self).failures as nat)
                + " stages need retry"@,
            *final(self) == (SyncProgress { message: final(self).message, ..*old(self) }),
    {
        let mut m = String::from_str("Loading details \u{b7} ");
        push_decimal(&mut m, done as u64);
        m.append(" of ");
        push_decimal(&mut m, total as u64);
        m.append(" games \u{b7} ");
        push_decimal(&mut m, self.failures as u64);
        m.append(" stages need retry");
        self.message = m;
    }

    /// Closes the sync: records whether it was cancelled and writes the closing message.
    pub fn finish(&mut self, cancelled: bool)
        ensures
            final(self).cancelled == cancelled,
            final(self).message@ == final_message(old(self).imported, old(self).failures, cancelled, strings_view(old(self).issues@)),
            final(self).imported == old(self).imported,
            final(self).failures == old(self).failures,
            final(self).issues == old(self).issues,
    {
        self.cancelled = cancelled;
        let mut m = if cancelled {
            String::from_str("Sync cancelled. Saved progress stays.")
        } else if self.failures > 0 {
            let mut m = String::from_str("Sync finished \u{b7} ");
            push_decimal(&mut m, self.imported as u64);
            m.append(" games \u{b7} ");
            push_decimal(&mut m, self.failures as u64);
            m.append(" items need retry or conflict review");
            m
        } else {
            let mut m = String::from_str("Synced ");
            push_decimal(&mut m, self.imported as u64);
            m.append(" games");
            m
        };
        let ghost lines = strings_view(self.issues@);
        if self.issues.len() > 0 {
            m.append("\n");
            let mut i: usize = 0;
            while i < self.issues.len()
                invariant
                    i <= self.issues.len(),
                    lines == strings_view(self.issues@),
                    self.issues.len() > 0,
                    i > 0 ==> m@ == final_message(self.imported, self.failures, cancelled, Seq::empty()) + "\n"@ + joined_lines(lines.subrange(0, i as int)),
                    i == 0 ==> m@ == final_message(self.imported, self.failures, cancelled, Seq::empty()) + "\n"@,
                decreases self.issues.len() - i,
            {
                if i > 0 {
                    m.append("\n");
                }
                m.append(self.issues[i].as_str());
                proof {
                    let s = lines.subrange(0, i + 1);
                    assert(s.drop_last() =~= lines.subrange(0, i as int));
                    assert(s.last() == self.issues@[i as int]@);
                    if i == 0 {
                        assert(joined_lines(s) == s[0]);
                    }
                }
                i += 1;
            }
            assert(lines.subrange(0, self.issues.len() as int) =~= lines);
        }
        self.message = m;
    }
}

/// The problem line for a failed detail stage of a game.
pub fn stage_issue(title: &str, stage: usize, error: &str) -> (r: String)
    requires
        stage < 3,
    ensures
        r@ == title@ + " \u{b7} "@ + stage_name(stage as nat) + ": "@ + error@,
{
    let mut s = String::from_str(title);
    s.append(" \u{b7} ");
    s.append(if stage == 0 { "description" } else if stage == 1 { "reviews" } else { "cover" });
    s.append(": ");
    s.append(error);
    s
}

/// The problem line for a game that could not be imported.
pub fn import_issue(name: &str, error: &str) -> (r: String)
    ensures
        r@ == name@ + ": "@ + error@,
{
    let mut s = String::from_str(name);
    s.append(": ");
    s.append(error);
    s
}

} // verus!

verus! {

/// Detail stage `stage` of this game still has to load: the game is linked to Steam and
/// the stage has not completed. Missing metadata has no stage completed.
pub open spec fn stage_pending(record: crate::records::GameRevision, stage: int) -> bool {
    match record.game.steam {
        None => false,
        Some(s) => match s.metadata {
            None => true,
            Some(m) => !(if stage == 0 {
                m.details_complete
            } else if stage == 1 {
                m.reviews_complete
            } else {
                m.cover_complete
            }),
        },
    }
}

/// Which of the three detail stages an imported game still needs.
pub fn pending_stages(record: &crate::records::GameRevision) -> (r: Vec<bool>)
    ensures
        r.len() == 3,
        forall|s: int| 0 <= s < 3 ==> r@[s] == stage_pending(*record, s),
{
    let mut r: Vec<bool> = Vec::new();
    let mut s: usize = 0;
    while s < 3
        invariant
            s <= 3,
            r.len() == s,
            forall|t: int| 0 <= t < s ==> r@[t] == stage_pending(*record, t),
        decreases 3 - s,
    {
        let need = match &record.game.steam {
            None => false,
            Some(st) => match &st.metadata {
                None => true,
                Some(m) => m.needs(s),
            },
        };
        r.push(need);
        s += 1;
    }
    r
}

/// `(a, b)` comes before `(c, d)` in record-then-stage order.
pub open spec fn before_pos(a: int, b: int, c: int, d: int) -> bool {
    a < c || (a == c && b < d)
}

/// The first stage still pending at or after stage `stage` of record `record`, in record
/// order and then stage order; a sync loads details in this order.
pub fn first_pending(needs: &Vec<Vec<bool>>, record: usize, stage: usize) -> (r: Option<(usize, usize)>)
    ensures
        match r {
            Some((a, b)) => a < needs.len() && b < needs@[a as int].len() && needs@[a as int]@[b as int]
                && !before_pos(a as int, b as int, record as int, stage as int)
                && forall|x: int, y: int| 0 <= x < needs.len() && 0 <= y < needs@[x]@.len() && needs@[x]@[y]
                    && !before_pos(x, y, record as int, stage as int) ==> !before_pos(x, y, a as int, b as int),
            None => forall|x: int, y: int| 0 <= x < needs.len() && 0 <= y < needs@[x]@.len() && needs@[x]@[y]
                ==> before_pos(x, y, record as int, stage as int),
        },
{
    let mut a: usize = record;
    while a < needs.len()
        invariant
            record <= a,
            forall|x: int, y: int| 0 <= x < needs.len() && 0 <= y < needs@[x]@.len() && needs@[x]@[y]
                && !before_pos(x, y, record as int, stage as int) ==> x >= a,
        decreases needs.len() - a,
    {
        let row = &needs[a];
        let mut b: usize = if a == record { stage } else { 0 };
        let ghost b0 = b;
        while b < row.len()
            invariant
                row@ == needs@[a as int]@,
                a < needs.len(),
                record <= a,
                b0 == if a == record { stage } else { 0 },
                b0 <= b,
                forall|y: int| b0 <= y < b && y < row.len() ==> !row@[y],
                forall|x: int, y: int| 0 <= x < needs.len() && 0 <= y < needs@[x]@.len() && needs@[x]@[y]
                    && !before_pos(x, y, record as int, stage as int) ==> x >= a,
            decreases row.len() - b,
        {
            if row[b] {
                return Some((a, b));
            }
            b += 1;
        }
        a += 1;
    }
    None
}

} // verus!

verus! {

/// Why a detail stage's response cannot be used.
#[derive(Debug, Clone, Copy, PartialEq, Eq, Structural)]
pub enum StageError {
    DescriptionMissing,
    ReviewCountMissing,
    PositiveCountMissing,
    InvalidReviewCounts,
}

impl StageError {
    pub fn message(&self) -> (r: String)
        ensures
            r@ == match *self {
                StageError::DescriptionMissing => "Description is missing"@,
                StageError::ReviewCountMissing => "Review count is missing"@,
                StageError::PositiveCountMissing => "Positive count is missing"@,
                StageError::InvalidReviewCounts => "Invalid review counts"@,
            },
    {
        match self {
            StageError::DescriptionMissing => String::from_str("Description is missing"),
            StageError::ReviewCountMissing => String::from_str("Review count is missing"),
            StageError::PositiveCountMissing => String::from_str("Positive count is missing"),
            StageError::InvalidReviewCounts => String::from_str("Invalid review counts"),
        }
    }
}

/// The first four-digit year of a store date.
pub open spec fn first_year(date: Seq<char>) -> Option<Seq<char>> {
    if exists|a: int| year_at(date, a) {
        let a = choose|a: int| year_at(date, a) && forall|b: int| 0 <= b < a ==> !year_at(date, b);
        Some(date.subrange(a, a + 4))
    } else {
        None
    }
}

proof fn lemma_first_year_unique(date: Seq<char>, a: int, c: int)
    requires
        year_at(date, a) && forall|b: int| 0 <= b < a ==> !year_at(date, b),
        year_at(date, c) && forall|b: int| 0 <= b < c ==> !year_at(date, b),
    ensures
        a == c,
{
}

/// The change that a store page makes: its description, genre names and release year.
/// A page without a description is refused.
pub fn details_change(description: Option<String>, genres: Vec<String>, release_date: Option<&str>) -> (r: Result<crate::stores::SteamChange, StageError>)
    ensures
        description is None ==> r == Err::<crate::stores::SteamChange, StageError>(StageError::DescriptionMissing),
        description matches Some(d) ==> (r matches Ok(crate::stores::SteamChange::Details { description: x, genres: g, release_year: y })
            && x@ == d@ && g@ == genres@ && opt_str(y) == match release_date {
                Some(t) => first_year(t@),
                None => None,
            }),
{
    let d = match description {
        Some(d) => d,
        None => {
            return Err(StageError::DescriptionMissing);
        },
    };
    let year = match release_date {
        Some(t) => {
            let y = release_year(t);
            proof {
                if y is Some {
                    let v = y->0;
                    {
                        let a = choose|a: int| year_at(t@, a) && v@ == t@.subrange(a, a + 4)
                            && forall|b: int| 0 <= b < a ==> !year_at(t@, b);
                        let c = choose|c: int| year_at(t@, c) && forall|b: int| 0 <= b < c ==> !year_at(t@, b);
                        lemma_first_year_unique(t@, a, c);
                    }
                }
            }
            y
        },
        None => None,
    };
    Ok(crate::stores::SteamChange::Details { description: d, genres, release_year: year })
}

/// The review counts a summary must carry, with no more positive reviews than reviews.
pub fn check_review_counts(total: Option<u64>, positive: Option<u64>) -> (r: Result<(u64, u64), StageError>)
    ensures
        total is None ==> r == Err::<(u64, u64), StageError>(StageError::ReviewCountMissing),
        total is Some && positive is None ==> r == Err::<(u64, u64), StageError>(StageError::PositiveCountMissing),
        total is Some && positive is Some ==> r == if positive->0 <= total->0 {
            Ok::<(u64, u64), StageError>((total->0, positive->0))
        } else {
            Err(StageError::InvalidReviewCounts)
        },
{
    let t = match total {
        Some(t) => t,
        None => {
            return Err(StageError::ReviewCountMissing);
        },
    };
    let p = match positive {
        Some(p) => p,
        None => {
            return Err(StageError::PositiveCountMissing);
        },
    };
    if p <= t {
        Ok((t, p))
    } else {
        Err(StageError::InvalidReviewCounts)
    }
}

} // verus!

verus! {

/// The store asset address of a path, when it is an acceptable artwork path.
pub open spec fn asset_option(id: u32, path: Option<Seq<char>>) -> Seq<Seq<char>> {
    match path {
        Some(p) => if artwork_path_ok(p) {
            seq![artwork_address(id, p)]
        } else {
            Seq::empty()
        },
        None => Seq::empty(),
    }
}

/// The portrait artwork every game has on Steam's CDN.
pub open spec fn portrait_address(id: u32) -> Seq<char> {
    "https://cdn.akamai.steamstatic.com/steam/apps/"@ + decimal(id as nat) + "/library_600x900.jpg"@
}

/// The addresses a cover download tries, in order: the library capsule and its double-size
/// version from the store's asset list, the CDN portrait, then the store header.
pub open spec fn cover_addresses(id: u32, capsule: Option<Seq<char>>, capsule_2x: Option<Seq<char>>, header: Option<Seq<char>>) -> Seq<Seq<char>> {
    asset_option(id, capsule) + asset_option(id, capsule_2x) + seq![portrait_address(id)] + asset_option(id, header)
}

fn push_asset(out: &mut Vec<String>, id: u32, path: Option<&str>)
    ensures
        strings_view(final(out)@) == strings_view(old(out)@) + asset_option(id, match path {
            Some(p) => Some(p@),
            None => None,
        }),
{
    if let Some(p) = path {
        if let Some(u) = artwork_url(id, p) {
            out.push(u);
        }
    }
    assert(strings_view(out@) =~= strings_view(old(out)@) + asset_option(id, match path {
        Some(p) => Some(p@),
        None => None,
    }));
}

/// The cover addresses to try for game `id`, given the asset paths the store lists.
pub fn cover_candidates(id: u32, capsule: Option<&str>, capsule_2x: Option<&str>, header: Option<&str>) -> (r: Vec<String>)
    ensures
        strings_view(r@) == cover_addresses(id, crate::records::opt_view(capsule), crate::records::opt_view(capsule_2x), crate::records::opt_view(header)),
{
    let mut out: Vec<String> = Vec::new();
    push_asset(&mut out, id, capsule);
    push_asset(&mut out, id, capsule_2x);
    let mut portrait = String::from_str("https://cdn.akamai.steamstatic.com/steam/apps/");
    push_decimal(&mut portrait, id as u64);
    portrait.append("/library_600x900.jpg");
    let ghost before = strings_view(out@);
    out.push(portrait);
    assert(strings_view(out@) =~= before + seq![portrait_address(id)]);
    push_asset(&mut out, id, header);
    proof {
        assert(strings_view(Seq::<String>::empty()) =~= Seq::<Seq<char>>::empty());
    }
    out
}

} // verus!

verus! {

/// Where a sync run stands: before anything, importing the owned game at a position,
/// loading one detail stage (0 description, 1 reviews, 2 cover) of the imported game at a
/// position, or over, stopped by the user or not.
#[derive(Debug, Clone, Copy, PartialEq, Eq, Structural)]
pub enum SyncStep {
    Start,
    Import(usize),
    Stage(usize, usize),
    Finish(bool),
}

/// `r` loads the first pending stage at or after stage `stage` of imported game `record`,
/// or finishes the run when none is left.
pub open spec fn stage_or_finish(needs: Seq<Vec<bool>>, record: int, stage: int, r: SyncStep) -> bool {
    match r {
        SyncStep::Stage(a, b) => {
            &&& a < needs.len() && b < needs[a as int]@.len() && needs[a as int]@[b as int]
            &&& !before_pos(a as int, b as int, record, stage)
            &&& forall|x: int, y: int| 0 <= x < needs.len() && 0 <= y < needs[x]@.len() && needs[x]@[y]
                && !before_pos(x, y, record, stage) ==> !before_pos(x, y, a as int, b as int)
        },
        SyncStep::Finish(stopped) => !stopped && forall|x: int, y: int| 0 <= x < needs.len() && 0 <= y < needs[x]@.len()
            && needs[x]@[y] ==> before_pos(x, y, record, stage),
        _ => false,
    }
}

/// The step of a sync run after `last`, for `owned` owned games and the pending stages
/// `needs` of the games imported so far: a finished run stays finished; a stop request
/// finishes it; owned games are imported in order; then each pending stage is loaded in
/// game and stage order; then the run finishes.
pub open spec fn step_after(last: SyncStep, owned: usize, needs: Seq<Vec<bool>>, cancelled: bool, r: SyncStep) -> bool {
    &&& last is Finish ==> r == last
    &&& !(last is Finish) && cancelled ==> r == SyncStep::Finish(true)
    &&& !cancelled ==> match last {
        SyncStep::Start => if owned > 0 {
            r == SyncStep::Import(0)
        } else {
            stage_or_finish(needs, 0, 0, r)
        },
        SyncStep::Import(i) => if i + 1 < owned {
            r == SyncStep::Import((i + 1) as usize)
        } else {
            stage_or_finish(needs, 0, 0, r)
        },
        SyncStep::Stage(i, s) => stage_or_finish(needs, i as int, s + 1, r),
        SyncStep::Finish(_) => true,
    }
}

/// The next step of a sync run, as `step_after` says.
pub fn next_step(last: SyncStep, owned: usize, needs: &Vec<Vec<bool>>, cancelled: bool) -> (r: SyncStep)
    requires
        last matches SyncStep::Stage(_, s) ==> s < usize::MAX,
    ensures
        step_after(last, owned, needs@, cancelled, r),
{
    if let SyncStep::Finish(_) = last {
        return last;
    }
    if cancelled {
        return SyncStep::Finish(true);
    }
    let (record, stage) = match last {
        SyncStep::Start => {
            if owned > 0 {
                return SyncStep::Import(0);
            }
            (0, 0)
        },
        SyncStep::Import(i) => {
            if i < owned && owned - i > 1 {
                return SyncStep::Import(i + 1);
            }
            (0, 0)
        },
        SyncStep::Stage(i, s) => (i, s + 1),
        SyncStep::Finish(_) => (0, 0),
    };
    match first_pending(needs, record, stage) {
        Some((a, b)) => SyncStep::Stage(a, b),
        None => SyncStep::Finish(false),
    }
}

/// A sync never requests a stage that an imported game has already completed: when the
/// pending stages are those of the imported games, every stage a step loads is still
/// pending for its game, so a repeat run over complete games requests nothing.
pub proof fn law_completed_stages_are_never_requested(last: SyncStep, owned: usize, records: Seq<crate::records::GameRevision>, needs: Seq<Vec<bool>>, cancelled: bool, r: SyncStep)
    requires
        needs.len() == records.len(),
        forall|i: int| 0 <= i < needs.len() ==> (#[trigger] needs[i])@.len() == 3,
        forall|i: int, s: int| 0 <= i < needs.len() && 0 <= s < 3 ==> (#[trigger] needs[i]@[s]) == stage_pending(records[i], s),
        step_after(last, owned, needs, cancelled, r),
    ensures
        r matches SyncStep::Stage(a, b) ==> a < records.len() && b < 3 && stage_pending(records[a as int], b as int),
{
    match r {
        SyncStep::Stage(a, b) => {
            assert(needs[a as int]@.len() == 3);
            assert(needs[a as int]@[b as int]);
        },
        _ => {},
    }
}

} // verus!
