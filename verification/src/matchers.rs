//! The matching strategies that resolve one file to one cached episode.
//!
//! Two strategies share one interface: the production-code strategy tries
//! the extracted candidates against the code index, the subtitle strategy
//! looks the operator-supplied season/episode pair up in the
//! season/episode index. Frame extraction, recognition and prompting
//! happen outside the library; the strategies consume their results.

use vstd::prelude::*;

use crate::cache::Cache;
use crate::models::EpisodeEntry;
use crate::models::SpecEpisode;
use crate::text;
use crate::text::digit_val;
use crate::text::is_digit_char;
use crate::text::lower_of;
use crate::text::trim_spec;

verus! {

/// Which matching strategy a run uses.
#[derive(Debug, Clone, Copy, PartialEq, Eq, Structural)]
pub enum MatchMode {
    ProductionCode,
    Subtitles,
}

/// What a strategy consumes for one file: the production-code candidates
/// extracted from its frames, or the season/episode pair the operator
/// supplied after reviewing its subtitles.
#[derive(Debug)]
pub enum MatchInput {
    Candidates(Vec<String>),
    SeasonEpisode(u64, u64),
}

// ---------------------------------------------------------------------------
// SXXEXX identifiers
// ---------------------------------------------------------------------------

/// The error for operator input that is not an SXXEXX identifier.
#[derive(Debug, Clone, Copy, PartialEq, Eq, Structural)]
pub enum SxxExxError {
    InvalidFormat,
}

/// `s` or `S`.
pub open spec fn is_s_char(c: char) -> bool {
    c == 's' || c == 'S'
}

/// `e` or `E`.
pub open spec fn is_e_char(c: char) -> bool {
    c == 'e' || c == 'E'
}

/// The season and episode numbers an SXXEXX identifier denotes, if the
/// input has that shape: `s`/`S`, one or two digits, `e`/`E`, one or two
/// digits, and nothing else.
pub open spec fn sxxexx_spec(s: Seq<char>) -> Option<(u64, u64)> {
    if s.len() < 4 || s.len() > 6 {
        None
    } else if !is_s_char(s[0]) || !is_digit_char(s[1]) {
        None
    } else {
        let two_digit_season = is_digit_char(s[2]);
        let season = if two_digit_season {
            (digit_val(s[1]) * 10 + digit_val(s[2])) as u64
        } else {
            digit_val(s[1])
        };
        let ei: int = if two_digit_season {
            3
        } else {
            2
        };
        if !(ei < s.len() && is_e_char(s[ei])) {
            None
        } else if s.len() == ei + 2 && is_digit_char(s[ei + 1]) {
            Some((season, digit_val(s[ei + 1])))
        } else if s.len() == ei + 3 && is_digit_char(s[ei + 1]) && is_digit_char(s[ei + 2]) {
            Some((season, (digit_val(s[ei + 1]) * 10 + digit_val(s[ei + 2])) as u64))
        } else {
            None
        }
    }
}

/// Parses an SXXEXX identifier such as `S01E01`, case-insensitively, with
/// one or two digits in each position.
pub fn parse_sxxexx(input: &str) -> (r: Result<(u64, u64), SxxExxError>)
    ensures
        match r {
            Ok(p) => sxxexx_spec(input@) == Some(p),
            Err(e) => sxxexx_spec(input@) is None && e == SxxExxError::InvalidFormat,
        },
{
    let chars = text::chars_of(input);
    let n = chars.len();
    if n < 4 || n > 6 {
        return Err(SxxExxError::InvalidFormat);
    }
    let c0 = chars[0];
    if !(c0 == 's' || c0 == 'S') {
        return Err(SxxExxError::InvalidFormat);
    }
    if !text::digit_char(chars[1]) {
        return Err(SxxExxError::InvalidFormat);
    }
    let two_digit_season = text::digit_char(chars[2]);
    let season: u64 = if two_digit_season {
        text::digit_value(chars[1]) * 10 + text::digit_value(chars[2])
    } else {
        text::digit_value(chars[1])
    };
    let ei: usize = if two_digit_season {
        3
    } else {
        2
    };
    if !(ei < n) {
        return Err(SxxExxError::InvalidFormat);
    }
    let ce = chars[ei];
    if !(ce == 'e' || ce == 'E') {
        return Err(SxxExxError::InvalidFormat);
    }
    if n == ei + 2 && text::digit_char(chars[ei + 1]) {
        return Ok((season, text::digit_value(chars[ei + 1])));
    }
    if n == ei + 3 && text::digit_char(chars[ei + 1]) && text::digit_char(chars[ei + 2]) {
        return Ok(
            (season, text::digit_value(chars[ei + 1]) * 10 + text::digit_value(chars[ei + 2])),
        );
    }
    Err(SxxExxError::InvalidFormat)
}

// ---------------------------------------------------------------------------
// The strategy interface
// ---------------------------------------------------------------------------

/// A matching strategy: given what was observed for one file, resolve it
/// against the cache to one episode, or to no match.
pub trait Matcher {
    /// The episode the strategy resolves this input to.
    spec fn match_spec(&self, input: &MatchInput, series_id: Seq<char>, cache: &Cache) -> Option<
        SpecEpisode,
    >;

    /// Resolves one file's observed input against the cache. A miss is a
    /// normal outcome, not an error.
    fn match_episode(&self, input: &MatchInput, series_id: &str, cache: &Cache) -> (r: Option<
        EpisodeEntry,
    >)
        requires
            cache.wf(),
        ensures
            match r {
                Some(e) => self.match_spec(input, series_id@, cache) == Some(e@),
                None => self.match_spec(input, series_id@, cache) is None,
            },
    ;
}

/// The first candidate that hits the production-code index, tried in
/// candidate order, each case-folded.
pub open spec fn first_code_hit(
    m: Map<(Seq<char>, Seq<char>), SpecEpisode>,
    sid: Seq<char>,
    cands: Seq<Seq<char>>,
) -> Option<SpecEpisode>
    decreases cands.len(),
{
    if cands.len() == 0 {
        None
    } else if m.contains_key((sid, lower_of(cands.first()))) {
        Some(m[(sid, lower_of(cands.first()))])
    } else {
        first_code_hit(m, sid, cands.drop_first())
    }
}

proof fn lemma_first_code_hit_skip(
    m: Map<(Seq<char>, Seq<char>), SpecEpisode>,
    sid: Seq<char>,
    cands: Seq<Seq<char>>,
    i: int,
)
    requires
        0 <= i <= cands.len(),
        forall|j: int| 0 <= j < i ==> !m.contains_key((sid, lower_of(#[trigger] cands[j]))),
    ensures
        first_code_hit(m, sid, cands) == first_code_hit(m, sid, cands.skip(i)),
    decreases i,
{
    if i > 0 {
        assert(!m.contains_key((sid, lower_of(cands.first()))));
        assert(forall|j: int| 0 <= j < i - 1 ==> (#[trigger] cands.drop_first()[j]) == cands[j
            + 1]);
        lemma_first_code_hit_skip(m, sid, cands.drop_first(), i - 1);
        assert(cands.drop_first().skip(i - 1) =~= cands.skip(i));
    } else {
        assert(cands.skip(0) =~= cands);
    }
}

/// The production-code strategy: extracted candidates are tried in frame
/// order against the code index, and the first hit wins. `prompt_size`,
/// when set, is the file size above which an unresolved file prompts the
/// operator for manual input.
#[derive(Debug, Clone, Copy, PartialEq, Eq, Structural)]
pub struct ProductionCodeMatcher {
    pub prompt_size: Option<u64>,
}

impl ProductionCodeMatcher {
    /// Whether an unresolved file of this size is over the configured
    /// prompt threshold: never, when no threshold is configured.
    pub fn should_prompt(&self, file_size: u64) -> (r: bool)
        ensures
            r == (match self.prompt_size {
                Some(t) => file_size > t,
                None => false,
            }),
    {
        match self.prompt_size {
            Some(t) => file_size > t,
            None => false,
        }
    }
}

impl Matcher for ProductionCodeMatcher {
    open spec fn match_spec(&self, input: &MatchInput, series_id: Seq<char>, cache: &Cache) -> Option<
        SpecEpisode,
    > {
        match input {
            MatchInput::Candidates(cands) => first_code_hit(
                cache.code_view(),
                series_id,
                cands.deep_view(),
            ),
            MatchInput::SeasonEpisode(_, _) => None,
        }
    }

    fn match_episode(&self, input: &MatchInput, series_id: &str, cache: &Cache) -> (r: Option<
        EpisodeEntry,
    >) {
        match input {
            MatchInput::Candidates(cands) => {
                let ghost cv = cands.deep_view();
                let n = cands.len();
                let mut i: usize = 0;
                while i < n
                    invariant
                        i <= n,
                        n == cands@.len(),
                        *input == MatchInput::Candidates(*cands),
                        cv == cands.deep_view(),
                        cache.wf(),
                        forall|j: int|
                            0 <= j < i ==> !cache.code_view().contains_key(
                                (series_id@, lower_of(#[trigger] cv[j])),
                            ),
                    decreases n - i,
                {
                    let hit = cache.get_episode(series_id, cands[i].as_str());
                    match hit {
                        Some(e) => {
                            proof {
                                lemma_first_code_hit_skip(
                                    cache.code_view(),
                                    series_id@,
                                    cv,
                                    i as int,
                                );
                                assert(cv.skip(i as int).first() == cv[i as int]);
                            }
                            return Some(e);
                        },
                        None => {
                        },
                    }
                    i += 1;
                }
                proof {
                    lemma_first_code_hit_skip(cache.code_view(), series_id@, cv, n as int);
                    assert(cv.skip(n as int) =~= Seq::<Seq<char>>::empty());
                }
                None
            },
            MatchInput::SeasonEpisode(_, _) => None,
        }
    }
}

/// The subtitle strategy: after the operator reviews the file's subtitles
/// and supplies a season/episode pair, that pair is looked up in the
/// season/episode index; a miss is reported as no match.
#[derive(Debug, Clone, Copy, PartialEq, Eq, Structural)]
pub struct SubtitleMatcher;

impl Matcher for SubtitleMatcher {
    open spec fn match_spec(&self, input: &MatchInput, series_id: Seq<char>, cache: &Cache) -> Option<
        SpecEpisode,
    > {
        match input {
            MatchInput::SeasonEpisode(season, episode) => {
                let key = (series_id, *season, *episode);
                if cache.se_view().contains_key(key) {
                    Some(cache.se_view()[key])
                } else {
                    None
                }
            },
            MatchInput::Candidates(_) => None,
        }
    }

    fn match_episode(&self, input: &MatchInput, series_id: &str, cache: &Cache) -> (r: Option<
        EpisodeEntry,
    >) {
        match input {
            MatchInput::SeasonEpisode(season, episode) => cache.get_episode_by_sxxexx(
                series_id,
                *season,
                *episode,
            ),
            MatchInput::Candidates(_) => None,
        }
    }
}

// ---------------------------------------------------------------------------
// Manual operator input
// ---------------------------------------------------------------------------

/// What one line of manual operator input resolves to: the trimmed input
/// is tried as a production code first, then parsed as an SXXEXX
/// identifier and looked up by season and episode.
pub open spec fn manual_input_spec(cache: Cache, sid: Seq<char>, input: Seq<char>) -> Option<
    SpecEpisode,
> {
    let t = trim_spec(input);
    if cache.code_view().contains_key((sid, lower_of(t))) {
        Some(cache.code_view()[(sid, lower_of(t))])
    } else {
        match sxxexx_spec(t) {
            Some(p) => if cache.se_view().contains_key((sid, p.0, p.1)) {
                Some(cache.se_view()[(sid, p.0, p.1)])
            } else {
                None
            },
            None => None,
        }
    }
}

/// Resolves one line of manual operator input, as the production-code
/// strategy's prompt does: first as a production code, then as an SXXEXX
/// identifier.
pub fn resolve_manual_input(cache: &Cache, series_id: &str, input: &str) -> (r: Option<
    EpisodeEntry,
>)
    requires
        cache.wf(),
    ensures
        match r {
            Some(e) => manual_input_spec(*cache, series_id@, input@) == Some(e@),
            None => manual_input_spec(*cache, series_id@, input@) is None,
        },
{
    let chars = text::chars_of(input);
    let trimmed_chars = text::trim_chars(&chars);
    let trimmed = text::string_of(&trimmed_chars);
    let by_code = cache.get_episode(series_id, trimmed.as_str());
    match by_code {
        Some(e) => Some(e),
        None => {
            match parse_sxxexx(trimmed.as_str()) {
                Ok(p) => cache.get_episode_by_sxxexx(series_id, p.0, p.1),
                Err(_) => None,
            }
        },
    }
}

} // verus!
