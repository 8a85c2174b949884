//! The two-level episode catalog cache.
//!
//! The cache stores, per series: the series display name, every episode
//! keyed by its case-folded production code (only episodes that carry a
//! code), and every episode keyed by its season/episode pair (all
//! episodes). Lookups never fail: an absent series or key is a miss, not an
//! error. `set_episode` has last-write-wins semantics at each key.

use vstd::prelude::*;

use crate::kv;
use crate::models::EpisodeEntry;
use crate::models::SpecEpisode;
use crate::text;
use crate::text::lower_of;

verus! {

/// The episode catalog cache. Mutated in memory during a run; reading and
/// writing its persisted form happens outside the library.
pub struct Cache {
    series: Vec<(String, String)>,
    by_code: Vec<((String, String), EpisodeEntry)>,
    by_se: Vec<((String, u64, u64), EpisodeEntry)>,
}

impl Cache {
    /// The stored series pairs: `(series id, series name)`.
    closed spec fn series_pairs(self) -> Seq<(Seq<char>, Seq<char>)> {
        Seq::new(self.series@.len(), |i: int| (self.series@[i].0@, self.series@[i].1@))
    }

    /// The stored code-index pairs: `((series id, folded code), entry)`.
    closed spec fn code_pairs(self) -> Seq<((Seq<char>, Seq<char>), SpecEpisode)> {
        Seq::new(
            self.by_code@.len(),
            |i: int| ((self.by_code@[i].0.0@, self.by_code@[i].0.1@), self.by_code@[i].1@),
        )
    }

    /// The stored season/episode-index pairs.
    closed spec fn se_pairs(self) -> Seq<((Seq<char>, u64, u64), SpecEpisode)> {
        Seq::new(
            self.by_se@.len(),
            |i: int|
                (
                    (self.by_se@[i].0.0@, self.by_se@[i].0.1, self.by_se@[i].0.2),
                    self.by_se@[i].1@,
                ),
        )
    }

    /// Series id to series name.
    pub closed spec fn series_view(self) -> Map<Seq<char>, Seq<char>> {
        kv::assoc_map(self.series_pairs())
    }

    /// `(series id, case-folded production code)` to episode.
    pub closed spec fn code_view(self) -> Map<(Seq<char>, Seq<char>), SpecEpisode> {
        kv::assoc_map(self.code_pairs())
    }

    /// `(series id, season number, episode number)` to episode.
    pub closed spec fn se_view(self) -> Map<(Seq<char>, u64, u64), SpecEpisode> {
        kv::assoc_map(self.se_pairs())
    }

    /// Each index holds at most one entry per key.
    pub closed spec fn wf(self) -> bool {
        kv::unique_keys(self.series_pairs()) && kv::unique_keys(self.code_pairs())
            && kv::unique_keys(self.se_pairs())
    }

    /// Whether either index holds at least one entry for the series.
    pub open spec fn spec_has_series_episodes(self, sid: Seq<char>) -> bool {
        (exists|k: (Seq<char>, Seq<char>)| #[trigger] self.code_view().contains_key(k) && k.0 == sid)
            || (exists|k: (Seq<char>, u64, u64)|
            #[trigger] self.se_view().contains_key(k) && k.0 == sid)
    }

    /// The empty cache; also what loading a missing or corrupt persisted
    /// cache yields.
    pub fn new() -> (r: Cache)
        ensures
            r.wf(),
            r.series_view() == Map::<Seq<char>, Seq<char>>::empty(),
            r.code_view() == Map::<(Seq<char>, Seq<char>), SpecEpisode>::empty(),
            r.se_view() == Map::<(Seq<char>, u64, u64), SpecEpisode>::empty(),
    {
        let r = Cache { series: Vec::new(), by_code: Vec::new(), by_se: Vec::new() };
        proof {
            assert(r.series_pairs() =~= Seq::<(Seq<char>, Seq<char>)>::empty());
            assert(r.code_pairs() =~= Seq::<((Seq<char>, Seq<char>), SpecEpisode)>::empty());
            assert(r.se_pairs() =~= Seq::<((Seq<char>, u64, u64), SpecEpisode)>::empty());
        }
        r
    }

    fn find_series(&self, sid: &str) -> (r: Option<usize>)
        ensures
            match r {
                Some(i) => i < self.series_pairs().len() && self.series_pairs()[i as int].0
                    == sid@,
                None => forall|j: int|
                    0 <= j < self.series_pairs().len() ==> self.series_pairs()[j].0 != sid@,
            },
    {
        let n = self.series.len();
        let mut i: usize = 0;
        while i < n
            invariant
                i <= n,
                n == self.series@.len(),
                forall|j: int| 0 <= j < i ==> self.series_pairs()[j].0 != sid@,
            decreases n - i,
        {
            if text::str_eq(self.series[i].0.as_str(), sid) {
                return Some(i);
            }
            i += 1;
        }
        None
    }

    fn find_code(&self, sid: &str, folded: &str) -> (r: Option<usize>)
        ensures
            match r {
                Some(i) => i < self.code_pairs().len() && self.code_pairs()[i as int].0 == (
                    sid@,
                    folded@,
                ),
                None => forall|j: int|
                    0 <= j < self.code_pairs().len() ==> self.code_pairs()[j].0 != (
                        sid@,
                        folded@,
                    ),
            },
    {
        let n = self.by_code.len();
        let mut i: usize = 0;
        while i < n
            invariant
                i <= n,
                n == self.by_code@.len(),
                forall|j: int| 0 <= j < i ==> self.code_pairs()[j].0 != (sid@, folded@),
            decreases n - i,
        {
            if text::str_eq(self.by_code[i].0.0.as_str(), sid) && text::str_eq(
                self.by_code[i].0.1.as_str(),
                folded,
            ) {
                return Some(i);
            }
            i += 1;
        }
        None
    }

    fn find_se(&self, sid: &str, season: u64, episode: u64) -> (r: Option<usize>)
        ensures
            match r {
                Some(i) => i < self.se_pairs().len() && self.se_pairs()[i as int].0 == (
                    sid@,
                    season,
                    episode,
                ),
                None => forall|j: int|
                    0 <= j < self.se_pairs().len() ==> self.se_pairs()[j].0 != (
                        sid@,
                        season,
                        episode,
                    ),
            },
    {
        let n = self.by_se.len();
        let mut i: usize = 0;
        while i < n
            invariant
                i <= n,
                n == self.by_se@.len(),
                forall|j: int| 0 <= j < i ==> self.se_pairs()[j].0 != (sid@, season, episode),
            decreases n - i,
        {
            if text::str_eq(self.by_se[i].0.0.as_str(), sid) && self.by_se[i].0.1 == season
                && self.by_se[i].0.2 == episode {
                return Some(i);
            }
            i += 1;
        }
        None
    }

    /// The cached display name of a series, if any.
    pub fn get_series_name(&self, series_id: &str) -> (r: Option<String>)
        requires
            self.wf(),
        ensures
            match r {
                Some(name) => self.series_view().contains_key(series_id@) && name@
                    == self.series_view()[series_id@],
                None => !self.series_view().contains_key(series_id@),
            },
    {
        match self.find_series(series_id) {
            Some(i) => {
                proof {
                    kv::lemma_assoc_found(self.series_pairs(), series_id@, i as int);
                }
                Some(self.series[i].1.clone())
            },
            None => {
                proof {
                    kv::lemma_assoc_absent(self.series_pairs(), series_id@);
                }
                None
            },
        }
    }

    /// Upsert of a series name: overwrites any previous name.
    pub fn set_series_name(&mut self, series_id: String, name: String)
        requires
            old(self).wf(),
        ensures
            final(self).wf(),
            final(self).series_view() == old(self).series_view().insert(series_id@, name@),
            final(self).code_view() == old(self).code_view(),
            final(self).se_view() == old(self).se_view(),
    {
        let ghost k = series_id@;
        let ghost v = name@;
        let ghost orig = self.series_pairs();
        match self.find_series(series_id.as_str()) {
            Some(i) => {
                proof {
                    kv::lemma_assoc_remove(orig, k, i as int);
                }
                self.series.remove(i);
                proof {
                    assert(self.series_pairs() =~= orig.remove(i as int));
                }
                let ghost mid = self.series_pairs();
                self.series.push((series_id, name));
                proof {
                    assert(self.series_pairs() =~= mid.push((k, v)));
                    Self::lemma_upsert_pair(orig, mid, k, v, i as int);
                }
            },
            None => {
                self.series.push((series_id, name));
                proof {
                    assert(self.series_pairs() =~= orig.push((k, v)));
                    Self::lemma_insert_pair(orig, k, v);
                }
            },
        }
    }

    /// After removing the pair at the key's index, pushing the new pair
    /// performs the map insert and keeps keys unique.
    proof fn lemma_upsert_pair<K, V>(orig: Seq<(K, V)>, mid: Seq<(K, V)>, k: K, v: V, i: int)
        requires
            kv::unique_keys(orig),
            0 <= i < orig.len(),
            orig[i].0 == k,
            mid == orig.remove(i),
        ensures
            kv::unique_keys(mid.push((k, v))),
            kv::assoc_map(mid.push((k, v))) == kv::assoc_map(orig).insert(k, v),
    {
        kv::lemma_assoc_remove(orig, k, i);
        let p = mid.push((k, v));
        assert(p.drop_last() =~= mid);
        assert(kv::assoc_map(p) == kv::assoc_map(mid).insert(k, v));
        assert(kv::assoc_map(mid).insert(k, v) =~= kv::assoc_map(orig).insert(k, v));
        assert(forall|j: int| 0 <= j < mid.len() ==> (#[trigger] mid[j]).0 != k) by {
            assert(forall|j: int|
                0 <= j < mid.len() ==> mid[j] == (if j < i {
                    orig[j]
                } else {
                    orig[j + 1]
                }));
        }
        assert(forall|x: int, y: int|
            0 <= x < y < p.len() ==> (#[trigger] p[x]).0 != (#[trigger] p[y]).0) by {
            assert(forall|x: int| 0 <= x < mid.len() ==> p[x] == mid[x]);
            assert(p[p.len() - 1] == (k, v));
        }
    }

    /// Pushing a pair whose key occurs nowhere performs the map insert and
    /// keeps keys unique.
    proof fn lemma_insert_pair<K, V>(orig: Seq<(K, V)>, k: K, v: V)
        requires
            kv::unique_keys(orig),
            forall|j: int| 0 <= j < orig.len() ==> (#[trigger] orig[j]).0 != k,
        ensures
            kv::unique_keys(orig.push((k, v))),
            kv::assoc_map(orig.push((k, v))) == kv::assoc_map(orig).insert(k, v),
    {
        let p = orig.push((k, v));
        assert(p.drop_last() =~= orig);
        assert(kv::assoc_map(p) == kv::assoc_map(orig).insert(k, v));
        assert(forall|x: int, y: int|
            0 <= x < y < p.len() ==> (#[trigger] p[x]).0 != (#[trigger] p[y]).0) by {
            assert(forall|x: int| 0 <= x < orig.len() ==> p[x] == orig[x]);
            assert(p[p.len() - 1] == (k, v));
        }
    }

    /// The cached episode with this production code, looked up case-folded;
    /// an absent series or code is a miss, never an error.
    pub fn get_episode(&self, series_id: &str, production_code: &str) -> (r: Option<EpisodeEntry>)
        requires
            self.wf(),
        ensures
            match r {
                Some(e) => self.code_view().contains_key((series_id@, lower_of(production_code@)))
                    && e@ == self.code_view()[(series_id@, lower_of(production_code@))],
                None => !self.code_view().contains_key((series_id@, lower_of(production_code@))),
            },
    {
        let folded = text::lowercase(production_code);
        match self.find_code(series_id, folded.as_str()) {
            Some(i) => {
                proof {
                    kv::lemma_assoc_found(self.code_pairs(), (series_id@, folded@), i as int);
                }
                Some(self.by_code[i].1.clone())
            },
            None => {
                proof {
                    kv::lemma_assoc_absent(self.code_pairs(), (series_id@, folded@));
                }
                None
            },
        }
    }

    /// The cached episode with this season and episode number.
    pub fn get_episode_by_sxxexx(
        &self,
        series_id: &str,
        season_number: u64,
        episode_number: u64,
    ) -> (r: Option<EpisodeEntry>)
        requires
            self.wf(),
        ensures
            match r {
                Some(e) => self.se_view().contains_key(
                    (series_id@, season_number, episode_number),
                ) && e@ == self.se_view()[(series_id@, season_number, episode_number)],
                None => !self.se_view().contains_key((series_id@, season_number, episode_number)),
            },
    {
        match self.find_se(series_id, season_number, episode_number) {
            Some(i) => {
                proof {
                    kv::lemma_assoc_found(
                        self.se_pairs(),
                        (series_id@, season_number, episode_number),
                        i as int,
                    );
                }
                Some(self.by_se[i].1.clone())
            },
            None => {
                proof {
                    kv::lemma_assoc_absent(
                        self.se_pairs(),
                        (series_id@, season_number, episode_number),
                    );
                }
                None
            },
        }
    }

    fn upsert_code(&mut self, sid: String, folded: String, value: EpisodeEntry)
        requires
            old(self).wf(),
        ensures
            final(self).wf(),
            final(self).code_view() == old(self).code_view().insert((sid@, folded@), value@),
            final(self).series_view() == old(self).series_view(),
            final(self).se_view() == old(self).se_view(),
    {
        let ghost k = (sid@, folded@);
        let ghost v = value@;
        let ghost orig = self.code_pairs();
        match self.find_code(sid.as_str(), folded.as_str()) {
            Some(i) => {
                proof {
                    kv::lemma_assoc_remove(orig, k, i as int);
                }
                self.by_code.remove(i);
                proof {
                    assert(self.code_pairs() =~= orig.remove(i as int));
                }
                let ghost mid = self.code_pairs();
                self.by_code.push(((sid, folded), value));
                proof {
                    assert(self.code_pairs() =~= mid.push((k, v)));
                    Self::lemma_upsert_pair(orig, mid, k, v, i as int);
                }
            },
            None => {
                self.by_code.push(((sid, folded), value));
                proof {
                    assert(self.code_pairs() =~= orig.push((k, v)));
                    Self::lemma_insert_pair(orig, k, v);
                }
            },
        }
    }

    fn upsert_se(&mut self, sid: String, season: u64, episode: u64, value: EpisodeEntry)
        requires
            old(self).wf(),
        ensures
            final(self).wf(),
            final(self).se_view() == old(self).se_view().insert((sid@, season, episode), value@),
            final(self).series_view() == old(self).series_view(),
            final(self).code_view() == old(self).code_view(),
    {
        let ghost k = (sid@, season, episode);
        let ghost v = value@;
        let ghost orig = self.se_pairs();
        match self.find_se(sid.as_str(), season, episode) {
            Some(i) => {
                proof {
                    kv::lemma_assoc_remove(orig, k, i as int);
                }
                self.by_se.remove(i);
                proof {
                    assert(self.se_pairs() =~= orig.remove(i as int));
                }
                let ghost mid = self.se_pairs();
                self.by_se.push(((sid, season, episode), value));
                proof {
                    assert(self.se_pairs() =~= mid.push((k, v)));
                    Self::lemma_upsert_pair(orig, mid, k, v, i as int);
                }
            },
            None => {
                self.by_se.push(((sid, season, episode), value));
                proof {
                    assert(self.se_pairs() =~= orig.push((k, v)));
                    Self::lemma_insert_pair(orig, k, v);
                }
            },
        }
    }

    /// Stores an episode: unconditionally into the season/episode index,
    /// and into the production-code index exactly when the entry carries a
    /// code (under the case-folded code). Overwrites any prior entry at the
    /// same key.
    pub fn set_episode(&mut self, series_id: &str, episode: &EpisodeEntry)
        requires
            old(self).wf(),
        ensures
            final(self).wf(),
            final(self).se_view() == old(self).se_view().insert(
                (series_id@, episode.season_number, episode.episode_number),
                episode@,
            ),
            final(self).code_view() == (match episode.production_code {
                Some(c) => old(self).code_view().insert((series_id@, lower_of(c@)), episode@),
                None => old(self).code_view(),
            }),
            final(self).series_view() == old(self).series_view(),
    {
        match &episode.production_code {
            Some(code) => {
                let folded = text::lowercase(code.as_str());
                self.upsert_code(series_id.to_owned(), folded, episode.clone());
            },
            None => {},
        }
        self.upsert_se(
            series_id.to_owned(),
            episode.season_number,
            episode.episode_number,
            episode.clone(),
        );
    }

    /// The cached series names as `(id, name)` pairs: each pair is in the
    /// series view, and every cached series appears. Used to persist the
    /// cache.
    pub fn series_entries(&self) -> (r: Vec<(String, String)>)
        requires
            self.wf(),
        ensures
            forall|i: int|
                0 <= i < r@.len() ==> self.series_view().contains_key((#[trigger] r@[i]).0@)
                    && self.series_view()[r@[i].0@] == r@[i].1@,
            forall|k: Seq<char>|
                #[trigger] self.series_view().contains_key(k) ==> exists|i: int|
                    0 <= i < r@.len() && (#[trigger] r@[i]).0@ == k,
    {
        let n = self.series.len();
        let mut r: Vec<(String, String)> = Vec::new();
        let mut i: usize = 0;
        while i < n
            invariant
                i <= n,
                n == self.series@.len(),
                self.wf(),
                r@.len() == i,
                forall|j: int|
                    0 <= j < i ==> ((#[trigger] r@[j]).0@, r@[j].1@) == self.series_pairs()[j],
            decreases n - i,
        {
            r.push((self.series[i].0.clone(), self.series[i].1.clone()));
            i += 1;
        }
        proof {
            kv::lemma_assoc_dom_all(self.series_pairs());
            assert forall|j: int|
                0 <= j < r@.len() implies self.series_view().contains_key((#[trigger] r@[j]).0@)
                && self.series_view()[r@[j].0@] == r@[j].1@ by {
                kv::lemma_assoc_found(self.series_pairs(), r@[j].0@, j);
            }
            assert forall|k: Seq<char>|
                #[trigger] self.series_view().contains_key(k) implies exists|i: int|
                0 <= i < r@.len() && (#[trigger] r@[i]).0@ == k by {
                let j = choose|j: int|
                    0 <= j < self.series_pairs().len() && (#[trigger] self.series_pairs()[j]).0
                        == k;
                assert(0 <= j < r@.len() && r@[j].0@ == k);
            }
        }
        r
    }

    /// The cached episodes as `(series id, season, episode, entry)`
    /// rows, one per season/episode key: each row is in the
    /// season/episode view, and every cached episode appears. Used to
    /// persist the cache.
    pub fn episode_entries(&self) -> (r: Vec<(String, u64, u64, EpisodeEntry)>)
        requires
            self.wf(),
        ensures
            forall|i: int|
                0 <= i < r@.len() ==> self.se_view().contains_key(
                    ((#[trigger] r@[i]).0@, r@[i].1, r@[i].2),
                ) && self.se_view()[(r@[i].0@, r@[i].1, r@[i].2)] == r@[i].3@,
            forall|k: (Seq<char>, u64, u64)|
                #[trigger] self.se_view().contains_key(k) ==> exists|i: int|
                    0 <= i < r@.len() && (#[trigger] r@[i]).0@ == k.0 && r@[i].1 == k.1 && r@[i].2
                        == k.2 && r@[i].3@ == self.se_view()[k],
    {
        let n = self.by_se.len();
        let mut r: Vec<(String, u64, u64, EpisodeEntry)> = Vec::new();
        let mut i: usize = 0;
        while i < n
            invariant
                i <= n,
                n == self.by_se@.len(),
                self.wf(),
                r@.len() == i,
                forall|j: int|
                    0 <= j < i ==> (#[trigger] r@[j]).0@ == self.se_pairs()[j].0.0 && r@[j].1
                        == self.se_pairs()[j].0.1 && r@[j].2 == self.se_pairs()[j].0.2 && r@[j].3@
                        == self.se_pairs()[j].1,
            decreases n - i,
        {
            r.push(
                (
                    self.by_se[i].0.0.clone(),
                    self.by_se[i].0.1,
                    self.by_se[i].0.2,
                    self.by_se[i].1.clone(),
                ),
            );
            i += 1;
        }
        proof {
            kv::lemma_assoc_dom_all(self.se_pairs());
            assert forall|j: int|
                0 <= j < r@.len() implies self.se_view().contains_key(
                ((#[trigger] r@[j]).0@, r@[j].1, r@[j].2),
            ) && self.se_view()[(r@[j].0@, r@[j].1, r@[j].2)] == r@[j].3@ by {
                kv::lemma_assoc_found(self.se_pairs(), self.se_pairs()[j].0, j);
            }
            assert forall|k: (Seq<char>, u64, u64)|
                #[trigger] self.se_view().contains_key(k) implies exists|i: int|
                0 <= i < r@.len() && (#[trigger] r@[i]).0@ == k.0 && r@[i].1 == k.1 && r@[i].2
                    == k.2 && r@[i].3@ == self.se_view()[k] by {
                let j = choose|j: int|
                    0 <= j < self.se_pairs().len() && (#[trigger] self.se_pairs()[j]).0 == k;
                kv::lemma_assoc_found(self.se_pairs(), k, j);
                assert(0 <= j < r@.len() && r@[j].0@ == k.0 && r@[j].1 == k.1 && r@[j].2 == k.2
                    && r@[j].3@ == self.se_view()[k]);
            }
        }
        r
    }

    /// The production-code index as `(series id, folded code, entry)`
    /// triples: each is in the code view, and every coded episode
    /// appears. Used to persist the cache.
    pub fn code_entries(&self) -> (r: Vec<(String, String, EpisodeEntry)>)
        requires
            self.wf(),
        ensures
            forall|i: int|
                0 <= i < r@.len() ==> self.code_view().contains_key(
                    ((#[trigger] r@[i]).0@, r@[i].1@),
                ) && self.code_view()[(r@[i].0@, r@[i].1@)] == r@[i].2@,
            forall|k: (Seq<char>, Seq<char>)|
                #[trigger] self.code_view().contains_key(k) ==> exists|i: int|
                    0 <= i < r@.len() && (#[trigger] r@[i]).0@ == k.0 && r@[i].1@ == k.1 && r@[i].2@
                        == self.code_view()[k],
    {
        let n = self.by_code.len();
        let mut r: Vec<(String, String, EpisodeEntry)> = Vec::new();
        let mut i: usize = 0;
        while i < n
            invariant
                i <= n,
                n == self.by_code@.len(),
                self.wf(),
                r@.len() == i,
                forall|j: int|
                    0 <= j < i ==> (#[trigger] r@[j]).0@ == self.code_pairs()[j].0.0 && r@[j].1@
                        == self.code_pairs()[j].0.1 && r@[j].2@ == self.code_pairs()[j].1,
            decreases n - i,
        {
            r.push(
                (self.by_code[i].0.0.clone(), self.by_code[i].0.1.clone(), self.by_code[i].1.clone()),
            );
            i += 1;
        }
        proof {
            kv::lemma_assoc_dom_all(self.code_pairs());
            assert forall|j: int|
                0 <= j < r@.len() implies self.code_view().contains_key(
                ((#[trigger] r@[j]).0@, r@[j].1@),
            ) && self.code_view()[(r@[j].0@, r@[j].1@)] == r@[j].2@ by {
                kv::lemma_assoc_found(self.code_pairs(), self.code_pairs()[j].0, j);
            }
            assert forall|k: (Seq<char>, Seq<char>)|
                #[trigger] self.code_view().contains_key(k) implies exists|i: int|
                0 <= i < r@.len() && (#[trigger] r@[i]).0@ == k.0 && r@[i].1@ == k.1 && r@[i].2@
                    == self.code_view()[k] by {
                let j = choose|j: int|
                    0 <= j < self.code_pairs().len() && (#[trigger] self.code_pairs()[j]).0 == k;
                kv::lemma_assoc_found(self.code_pairs(), k, j);
                assert(0 <= j < r@.len() && r@[j].0@ == k.0 && r@[j].1@ == k.1 && r@[j].2@
                    == self.code_view()[k]);
            }
        }
        r
    }

    /// Whether any episode is cached for the series, in either index. A
    /// series whose episodes all lack production codes is still reported,
    /// which is why both indices are consulted.
    pub fn has_series_episodes(&self, series_id: &str) -> (r: bool)
        requires
            self.wf(),
        ensures
            r == self.spec_has_series_episodes(series_id@),
    {
        let n = self.by_code.len();
        let mut i: usize = 0;
        while i < n
            invariant
                i <= n,
                n == self.by_code@.len(),
                forall|j: int| 0 <= j < i ==> self.code_pairs()[j].0.0 != series_id@,
            decreases n - i,
        {
            if text::str_eq(self.by_code[i].0.0.as_str(), series_id) {
                proof {
                    kv::lemma_assoc_contains_index(self.code_pairs());
                    assert(self.code_view().contains_key(self.code_pairs()[i as int].0));
                }
                return true;
            }
            i += 1;
        }
        let m = self.by_se.len();
        let mut j: usize = 0;
        while j < m
            invariant
                j <= m,
                m == self.by_se@.len(),
                forall|l: int| 0 <= l < j ==> self.se_pairs()[l].0.0 != series_id@,
            decreases m - j,
        {
            if text::str_eq(self.by_se[j].0.0.as_str(), series_id) {
                proof {
                    kv::lemma_assoc_contains_index(self.se_pairs());
                    assert(self.se_view().contains_key(self.se_pairs()[j as int].0));
                }
                return true;
            }
            j += 1;
        }
        proof {
            kv::lemma_assoc_dom_all(self.code_pairs());
            kv::lemma_assoc_dom_all(self.se_pairs());
            assert forall|k: (Seq<char>, Seq<char>)|
                #[trigger] self.code_view().contains_key(k) implies k.0 != series_id@ by {
                let l = choose|l: int|
                    0 <= l < self.code_pairs().len() && (#[trigger] self.code_pairs()[l]).0 == k;
                assert(self.code_pairs()[l].0.0 != series_id@);
            }
            assert forall|k: (Seq<char>, u64, u64)|
                #[trigger] self.se_view().contains_key(k) implies k.0 != series_id@ by {
                let l = choose|l: int|
                    0 <= l < self.se_pairs().len() && (#[trigger] self.se_pairs()[l]).0 == k;
                assert(self.se_pairs()[l].0.0 != series_id@);
            }
        }
        false
    }
}

// ---------------------------------------------------------------------------
// Laws
// ---------------------------------------------------------------------------

/// Case-insensitive round trip: in the state `set_episode` leaves behind for
/// an entry with a present production code, a code lookup under any case
/// variant of that code (any string with the same case-folding) finds
/// exactly that entry.
pub proof fn lemma_set_then_get_by_code(
    pre: Cache,
    post: Cache,
    sid: Seq<char>,
    e: SpecEpisode,
    q: Seq<char>,
)
    requires
        e.production_code is Some,
        post.code_view() == pre.code_view().insert(
            (sid, lower_of(e.production_code.unwrap())),
            e,
        ),
        lower_of(q) == lower_of(e.production_code.unwrap()),
    ensures
        post.code_view().contains_key((sid, lower_of(q))),
        post.code_view()[(sid, lower_of(q))] == e,
{
}

/// Season/episode round trip: in the state `set_episode` leaves behind, a
/// lookup by the entry's season and episode numbers finds exactly that
/// entry, whether or not the entry carries a production code.
pub proof fn lemma_set_then_get_by_season_episode(
    pre: Cache,
    post: Cache,
    sid: Seq<char>,
    e: SpecEpisode,
)
    requires
        post.se_view() == pre.se_view().insert((sid, e.season_number, e.episode_number), e),
    ensures
        post.se_view().contains_key((sid, e.season_number, e.episode_number)),
        post.se_view()[(sid, e.season_number, e.episode_number)] == e,
{
}

/// An unknown series has no episodes: the fresh cache reports no episodes
/// for any series id.
pub proof fn lemma_empty_cache_has_no_episodes(c: Cache, sid: Seq<char>)
    requires
        c.code_view() == Map::<(Seq<char>, Seq<char>), SpecEpisode>::empty(),
        c.se_view() == Map::<(Seq<char>, u64, u64), SpecEpisode>::empty(),
    ensures
        !c.spec_has_series_episodes(sid),
{
}

/// A single `set_episode` is enough: in the state it leaves behind, the
/// series has episodes.
pub proof fn lemma_has_episodes_after_set(pre: Cache, post: Cache, sid: Seq<char>, e: SpecEpisode)
    requires
        post.se_view() == pre.se_view().insert((sid, e.season_number, e.episode_number), e),
    ensures
        post.spec_has_series_episodes(sid),
{
    let k = (sid, e.season_number, e.episode_number);
    assert(post.se_view().contains_key(k));
}

/// Storing an episode for one series does not make another series known:
/// a series id that had no episodes still has none afterwards.
pub proof fn lemma_set_episode_other_series_unchanged(
    pre: Cache,
    post: Cache,
    sid: Seq<char>,
    e: SpecEpisode,
    other: Seq<char>,
)
    requires
        other != sid,
        post.se_view() == pre.se_view().insert((sid, e.season_number, e.episode_number), e),
        post.code_view() == pre.code_view() || (e.production_code is Some && post.code_view()
            == pre.code_view().insert((sid, lower_of(e.production_code.unwrap())), e)),
    ensures
        post.spec_has_series_episodes(other) == pre.spec_has_series_episodes(other),
{
    if pre.spec_has_series_episodes(other) {
        if exists|k: (Seq<char>, Seq<char>)|
            #[trigger] pre.code_view().contains_key(k) && k.0 == other {
            let k = choose|k: (Seq<char>, Seq<char>)|
                #[trigger] pre.code_view().contains_key(k) && k.0 == other;
            assert(post.code_view().contains_key(k));
        } else {
            let k = choose|k: (Seq<char>, u64, u64)|
                #[trigger] pre.se_view().contains_key(k) && k.0 == other;
            assert(post.se_view().contains_key(k));
        }
    }
    if post.spec_has_series_episodes(other) {
        if exists|k: (Seq<char>, Seq<char>)|
            #[trigger] post.code_view().contains_key(k) && k.0 == other {
            let k = choose|k: (Seq<char>, Seq<char>)|
                #[trigger] post.code_view().contains_key(k) && k.0 == other;
            assert(pre.code_view().contains_key(k));
        } else {
            let k = choose|k: (Seq<char>, u64, u64)|
                #[trigger] post.se_view().contains_key(k) && k.0 == other;
            assert(pre.se_view().contains_key(k));
        }
    }
}

} // verus!
