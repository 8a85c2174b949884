//! The remote catalog client's session state and the paginated episode
//! synchronization.
//!
//! The HTTP requests themselves happen outside the library. This module
//! keeps the client's authentication state, interprets search results, and
//! drives the sync as a state machine: the caller performs one fetch at a
//! time and hands the outcome back, and the machine decides what happens
//! next and writes finished episodes into the cache.

use vstd::prelude::*;

use crate::cache::Cache;
use crate::models::EpisodeEntry;
use crate::models::SpecEpisode;
use crate::text;
use crate::text::lower_of;

verus! {

// ---------------------------------------------------------------------------
// Client session state
// ---------------------------------------------------------------------------

/// The remote catalog client: an API key, and the bearer token once the
/// session has logged in. Logging in is lazy: the caller exchanges the API
/// key for a token on the first authenticated call and stores it here; an
/// expired token is not refreshed, the failing call surfaces the error.
#[derive(Debug)]
pub struct TvdbClient {
    api_key: String,
    token: Option<String>,
}

impl TvdbClient {
    /// The configured API key.
    pub closed spec fn spec_api_key(self) -> Seq<char> {
        self.api_key@
    }

    /// The session token, once one was obtained.
    pub closed spec fn spec_token(self) -> Option<Seq<char>> {
        match self.token {
            Some(t) => Some(t@),
            None => None,
        }
    }

    /// A client that has not logged in yet.
    pub fn new(api_key: String) -> (r: Self)
        ensures
            r.spec_api_key() == api_key@,
            r.spec_token() is None,
    {
        TvdbClient { api_key, token: None }
    }

    /// The API key, for the login exchange.
    pub fn api_key(&self) -> (r: &String)
        ensures
            r@ == self.spec_api_key(),
    {
        &self.api_key
    }

    /// Whether the session still has to log in.
    pub fn needs_login(&self) -> (r: bool)
        ensures
            r == (self.spec_token() is None),
    {
        self.token.is_none()
    }

    /// Stores the bearer token obtained from the login exchange.
    pub fn set_token(&mut self, token: String)
        ensures
            final(self).spec_token() == Some(token@),
            final(self).spec_api_key() == old(self).spec_api_key(),
    {
        self.token = Some(token);
    }

    /// The stored bearer token, for request headers.
    pub fn token(&self) -> (r: Option<&String>)
        ensures
            match r {
                Some(t) => self.spec_token() == Some(t@),
                None => self.spec_token() is None,
            },
    {
        match &self.token {
            Some(t) => Some(t),
            None => None,
        }
    }
}

// ---------------------------------------------------------------------------
// Search results
// ---------------------------------------------------------------------------

/// One hit of a free-text series search: the series id and the localized
/// names the catalog returned, as (language, name) pairs in response
/// order.
#[derive(Debug)]
pub struct SearchResult {
    pub tvdb_id: String,
    pub name: Option<Vec<(String, String)>>,
}

/// The localized-name pairs of a search result, as character sequences.
pub open spec fn name_pairs_view(v: Vec<(String, String)>) -> Seq<(Seq<char>, Seq<char>)> {
    Seq::new(v@.len(), |i: int| (v@[i].0@, v@[i].1@))
}

/// The value of the first pair with the given key, if any.
pub open spec fn find_translation(pairs: Seq<(Seq<char>, Seq<char>)>, key: Seq<char>) -> Option<
    Seq<char>,
>
    decreases pairs.len(),
{
    if pairs.len() == 0 {
        None
    } else if pairs.first().0 == key {
        Some(pairs.first().1)
    } else {
        find_translation(pairs.drop_first(), key)
    }
}

/// The name shown for a search result: its English localized name when one
/// is present, else its first localized name, else `Unknown`.
pub open spec fn display_name_spec(r: SearchResult) -> Seq<char> {
    match r.name {
        None => "Unknown"@,
        Some(pairs) => {
            let pv = name_pairs_view(pairs);
            match find_translation(pv, "eng"@) {
                Some(n) => n,
                None => if pv.len() > 0 {
                    pv[0].1
                } else {
                    "Unknown"@
                },
            }
        },
    }
}

proof fn lemma_find_translation_skip(pairs: Seq<(Seq<char>, Seq<char>)>, key: Seq<char>, i: int)
    requires
        0 <= i <= pairs.len(),
        forall|j: int| 0 <= j < i ==> (#[trigger] pairs[j]).0 != key,
    ensures
        find_translation(pairs, key) == find_translation(pairs.skip(i), key),
    decreases i,
{
    if i > 0 {
        assert(pairs.first().0 != key);
        assert(forall|j: int|
            0 <= j < i - 1 ==> (#[trigger] pairs.drop_first()[j]) == pairs[j + 1]);
        lemma_find_translation_skip(pairs.drop_first(), key, i - 1);
        assert(pairs.drop_first().skip(i - 1) =~= pairs.skip(i));
        assert(find_translation(pairs, key) == find_translation(pairs.drop_first(), key));
    } else {
        assert(pairs.skip(0) =~= pairs);
    }
}

impl SearchResult {
    /// The name to show an operator for this search result.
    pub fn display_name(&self) -> (r: String)
        ensures
            r@ == display_name_spec(*self),
    {
        match &self.name {
            None => "Unknown".to_owned(),
            Some(pairs) => {
                let ghost pv = name_pairs_view(*pairs);
                let n = pairs.len();
                let mut i: usize = 0;
                while i < n
                    invariant
                        i <= n,
                        n == pairs@.len(),
                        self.name == Some(*pairs),
                        pv == name_pairs_view(*pairs),
                        forall|j: int| 0 <= j < i ==> (#[trigger] pv[j]).0 != "eng"@,
                    decreases n - i,
                {
                    if text::str_eq(pairs[i].0.as_str(), "eng") {
                        proof {
                            lemma_find_translation_skip(pv, "eng"@, i as int);
                            assert(pv.skip(i as int).first() == pv[i as int]);
                            assert(find_translation(pv.skip(i as int), "eng"@) == Some(
                                pv[i as int].1,
                            ));
                        }
                        return pairs[i].1.clone();
                    }
                    i += 1;
                }
                proof {
                    lemma_find_translation_skip(pv, "eng"@, n as int);
                    assert(pv.skip(n as int) =~= Seq::<(Seq<char>, Seq<char>)>::empty());
                }
                if pairs.len() > 0 {
                    pairs[0].1.clone()
                } else {
                    "Unknown".to_owned()
                }
            },
        }
    }
}

/// Resolves an operator's one-based selection among search results: the
/// chosen result's series id for a choice between 1 and the number of
/// results, nothing for anything else.
pub fn choose_search_result(results: &Vec<SearchResult>, choice: usize) -> (r: Option<String>)
    ensures
        match r {
            Some(id) => 1 <= choice <= results@.len() && id@ == results@[choice - 1].tvdb_id@,
            None => !(1 <= choice <= results@.len()),
        },
{
    if 1 <= choice && choice <= results.len() {
        Some(results[choice - 1].tvdb_id.clone())
    } else {
        None
    }
}

// ---------------------------------------------------------------------------
// Paginated episode synchronization
// ---------------------------------------------------------------------------

/// One episode as the bulk episode list reports it: only its id; the
/// production code comes from the per-episode extended fetch.
#[derive(Debug, Clone, Copy, PartialEq, Eq, Structural)]
pub struct Episode {
    pub id: u32,
}

/// Where the synchronization stands.
#[derive(Debug, Clone, Copy, PartialEq, Eq, Structural)]
pub enum SyncPhase {
    /// Pages of the episode list are still being requested.
    FetchingPages,
    /// The episode list is complete; extended fetches are in progress.
    Extending,
    /// A page fetch failed; the sync is over and unsuccessful.
    Failed,
}

/// What one page request came back with.
#[derive(Debug)]
pub enum PageOutcome {
    /// A well-formed page with its episodes (possibly none).
    Page(Vec<Episode>),
    /// The server reported the page as not found: the end of pagination,
    /// not an error.
    NotFound,
    /// Any other failure: a non-success status or a malformed payload,
    /// fatal for the sync.
    Failure,
}

/// What one extended episode fetch came back with.
#[derive(Debug)]
pub enum ExtendedOutcome {
    /// A well-formed extended record.
    Fetched {
        production_code: Option<String>,
        season_number: Option<u64>,
        episode_number: Option<u64>,
        name: String,
    },
    /// A failed fetch or a malformed payload: this episode is skipped,
    /// the sync continues.
    Failure,
}

/// The cache entry an extended fetch outcome yields: nothing for a failed
/// fetch or one that lacks a season or episode number — such an episode is
/// skipped entirely and reaches neither index.
pub open spec fn extended_episode_spec(o: ExtendedOutcome) -> Option<SpecEpisode> {
    match o {
        ExtendedOutcome::Fetched { production_code, season_number, episode_number, name } => {
            if season_number is Some && episode_number is Some {
                Some(
                    SpecEpisode {
                        production_code: match production_code {
                            Some(c) => Some(c@),
                            None => None,
                        },
                        season_number: season_number.unwrap(),
                        episode_number: episode_number.unwrap(),
                        name: name@,
                    },
                )
            } else {
                None
            }
        },
        ExtendedOutcome::Failure => None,
    }
}

/// The state of one series' episode synchronization. The caller fetches
/// whatever `page_to_fetch` or `episode_to_extend` asks for and reports
/// the outcome; episodes are written to the cache one by one as their
/// extended fetches arrive, so an interrupted sync leaves a valid,
/// resumable cache.
#[derive(Debug)]
pub struct EpisodeSync {
    phase: SyncPhase,
    next_page: u64,
    pending: Vec<Episode>,
    pos: usize,
}

impl EpisodeSync {
    pub closed spec fn spec_phase(self) -> SyncPhase {
        self.phase
    }

    pub closed spec fn spec_next_page(self) -> u64 {
        self.next_page
    }

    /// The episodes collected from the pages, in page order.
    pub closed spec fn spec_pending(self) -> Seq<Episode> {
        self.pending@
    }

    /// How many collected episodes have had their extended fetch.
    pub closed spec fn spec_pos(self) -> int {
        self.pos as int
    }

    /// A sync that will start with page zero.
    pub fn new() -> (r: Self)
        ensures
            r.spec_phase() == SyncPhase::FetchingPages,
            r.spec_next_page() == 0,
            r.spec_pending() == Seq::<Episode>::empty(),
            r.spec_pos() == 0,
    {
        EpisodeSync { phase: SyncPhase::FetchingPages, next_page: 0, pending: Vec::new(), pos: 0 }
    }

    /// The page to request next, while pages remain to be fetched.
    pub fn page_to_fetch(&self) -> (r: Option<u64>)
        ensures
            match r {
                Some(p) => self.spec_phase() == SyncPhase::FetchingPages && p
                    == self.spec_next_page(),
                None => self.spec_phase() != SyncPhase::FetchingPages,
            },
    {
        if self.phase == SyncPhase::FetchingPages {
            Some(self.next_page)
        } else {
            None
        }
    }

    /// Whether the sync ended in a page failure.
    pub fn failed(&self) -> (r: bool)
        ensures
            r == (self.spec_phase() == SyncPhase::Failed),
    {
        self.phase == SyncPhase::Failed
    }

    /// Records the outcome of the requested page: a page with episodes
    /// extends the list and moves to the next page; an empty page or a
    /// not-found reply ends pagination and starts the extended fetches;
    /// any other failure ends the sync unsuccessfully.
    pub fn on_page(&mut self, outcome: PageOutcome)
        requires
            old(self).spec_phase() == SyncPhase::FetchingPages,
            old(self).spec_next_page() < u64::MAX,
        ensures
            final(self).spec_pos() == old(self).spec_pos(),
            match outcome {
                PageOutcome::Page(eps) => if eps@.len() > 0 {
                    final(self).spec_phase() == SyncPhase::FetchingPages
                        && final(self).spec_next_page() == old(self).spec_next_page() + 1
                        && final(self).spec_pending() == old(self).spec_pending() + eps@
                } else {
                    final(self).spec_phase() == SyncPhase::Extending
                        && final(self).spec_pending() == old(self).spec_pending()
                        && final(self).spec_next_page() == old(self).spec_next_page()
                },
                PageOutcome::NotFound => final(self).spec_phase() == SyncPhase::Extending
                    && final(self).spec_pending() == old(self).spec_pending()
                    && final(self).spec_next_page() == old(self).spec_next_page(),
                PageOutcome::Failure => final(self).spec_phase() == SyncPhase::Failed
                    && final(self).spec_pending() == old(self).spec_pending()
                    && final(self).spec_next_page() == old(self).spec_next_page(),
            },
    {
        match outcome {
            PageOutcome::Page(eps) => {
                if eps.len() > 0 {
                    let mut eps = eps;
                    self.pending.append(&mut eps);
                    self.next_page = self.next_page + 1;
                } else {
                    self.phase = SyncPhase::Extending;
                }
            },
            PageOutcome::NotFound => {
                self.phase = SyncPhase::Extending;
            },
            PageOutcome::Failure => {
                self.phase = SyncPhase::Failed;
            },
        }
    }

    /// The episode whose extended record should be fetched next, while one
    /// remains.
    pub fn episode_to_extend(&self) -> (r: Option<Episode>)
        ensures
            match r {
                Some(e) => self.spec_phase() == SyncPhase::Extending && self.spec_pos()
                    < self.spec_pending().len() && e == self.spec_pending()[self.spec_pos()],
                None => !(self.spec_phase() == SyncPhase::Extending && self.spec_pos()
                    < self.spec_pending().len()),
            },
    {
        if self.phase == SyncPhase::Extending && self.pos < self.pending.len() {
            Some(self.pending[self.pos])
        } else {
            None
        }
    }

    /// Records the outcome of one extended fetch and moves on. A
    /// well-formed record with both numbers is written into the cache at
    /// once; a failed fetch or a record without a season or episode number
    /// is skipped and leaves the cache untouched.
    pub fn on_extended(&mut self, cache: &mut Cache, series_id: &str, outcome: &ExtendedOutcome)
        requires
            old(self).spec_phase() == SyncPhase::Extending,
            old(self).spec_pos() < old(self).spec_pending().len(),
            old(cache).wf(),
        ensures
            final(cache).wf(),
            final(self).spec_pos() == old(self).spec_pos() + 1,
            final(self).spec_phase() == old(self).spec_phase(),
            final(self).spec_pending() == old(self).spec_pending(),
            final(self).spec_next_page() == old(self).spec_next_page(),
            match extended_episode_spec(*outcome) {
                Some(entry) => final(cache).se_view() == old(cache).se_view().insert(
                    (series_id@, entry.season_number, entry.episode_number),
                    entry,
                ) && final(cache).code_view() == (match entry.production_code {
                    Some(c) => old(cache).code_view().insert((series_id@, lower_of(c)), entry),
                    None => old(cache).code_view(),
                }) && final(cache).series_view() == old(cache).series_view(),
                None => final(cache).se_view() == old(cache).se_view()
                    && final(cache).code_view() == old(cache).code_view()
                    && final(cache).series_view() == old(cache).series_view(),
            },
    {
        let n = self.pending.len();
        match outcome {
            ExtendedOutcome::Fetched {
                production_code,
                season_number: Some(season),
                episode_number: Some(episode),
                name,
            } => {
                let entry = EpisodeEntry {
                    production_code: match production_code {
                        Some(c) => Some(c.clone()),
                        None => None,
                    },
                    season_number: *season,
                    episode_number: *episode,
                    name: name.clone(),
                };
                cache.set_episode(series_id, &entry);
            },
            _ => {},
        }
        self.pos = self.pos + 1;
    }
}

} // verus!
