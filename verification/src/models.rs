//! The canonical identification record for one episode.

use vstd::prelude::*;

verus! {

/// The mathematical content of an [`EpisodeEntry`].
pub ghost struct SpecEpisode {
    pub production_code: Option<Seq<char>>,
    pub season_number: u64,
    pub episode_number: u64,
    pub name: Seq<char>,
}

/// One episode of a series: an optional studio-assigned production code
/// (not every episode has one), the season and episode numbers, and the
/// episode title. A `(season, episode)` pair is unique within a series;
/// production codes are unique only where present and are always looked up
/// case-folded.
#[derive(Debug, PartialEq, Eq)]
pub struct EpisodeEntry {
    pub production_code: Option<String>,
    pub season_number: u64,
    pub episode_number: u64,
    pub name: String,
}

impl View for EpisodeEntry {
    type V = SpecEpisode;

    open spec fn view(&self) -> SpecEpisode {
        SpecEpisode {
            production_code: match self.production_code {
                Some(c) => Some(c@),
                None => None,
            },
            season_number: self.season_number,
            episode_number: self.episode_number,
            name: self.name@,
        }
    }
}

impl Clone for EpisodeEntry {
    fn clone(&self) -> (r: Self)
        ensures
            r == *self,
    {
        EpisodeEntry {
            production_code: match &self.production_code {
                Some(c) => Some(c.clone()),
                None => None,
            },
            season_number: self.season_number,
            episode_number: self.episode_number,
            name: self.name.clone(),
        }
    }
}

} // verus!
