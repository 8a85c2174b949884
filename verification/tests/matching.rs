use episode_matcher::cache::Cache;
use episode_matcher::matchers::parse_sxxexx;
use episode_matcher::matchers::resolve_manual_input;
use episode_matcher::matchers::MatchInput;
use episode_matcher::matchers::Matcher;
use episode_matcher::matchers::ProductionCodeMatcher;
use episode_matcher::matchers::SubtitleMatcher;
use episode_matcher::matchers::SxxExxError;
use episode_matcher::models::EpisodeEntry;

fn entry(code: Option<&str>, season: u64, episode: u64, name: &str) -> EpisodeEntry {
    EpisodeEntry {
        production_code: code.map(|c| c.to_string()),
        season_number: season,
        episode_number: episode,
        name: name.to_string(),
    }
}

fn sample_cache() -> Cache {
    let mut cache = Cache::new();
    cache.set_episode("75897", &entry(Some("3X22"), 3, 22, "Coded"));
    cache.set_episode("75897", &entry(Some("6ABX08"), 6, 8, "Later"));
    cache.set_episode("75897", &entry(None, 4, 1, "Uncoded"));
    cache
}

#[test]
fn test_parse_sxxexx_valid() {
    assert_eq!(parse_sxxexx("S01E01").unwrap(), (1, 1));
    assert_eq!(parse_sxxexx("s01e01").unwrap(), (1, 1));
    assert_eq!(parse_sxxexx("S1E1").unwrap(), (1, 1));
    assert_eq!(parse_sxxexx("S10E20").unwrap(), (10, 20));
    assert_eq!(parse_sxxexx("s99e99").unwrap(), (99, 99));
}

#[test]
fn test_parse_sxxexx_invalid() {
    assert!(parse_sxxexx("0101").is_err());
    assert!(parse_sxxexx("S01").is_err());
    assert!(parse_sxxexx("E01").is_err());
    assert!(parse_sxxexx("S01E").is_err());
    assert!(parse_sxxexx("Episode 1").is_err());
    assert!(parse_sxxexx("S123E01").is_err()); // at most two digits each
}

#[test]
fn test_parse_sxxexx_error_variant() {
    assert_eq!(parse_sxxexx("nonsense"), Err(SxxExxError::InvalidFormat));
}

#[test]
fn test_production_code_matcher_first_hit_wins() {
    let cache = sample_cache();
    let matcher = ProductionCodeMatcher { prompt_size: None };
    let input = MatchInput::Candidates(vec![
        "1080".to_string(), // a false positive; not in the cache
        "6abx08".to_string(),
        "3X22".to_string(),
    ]);
    let hit = matcher.match_episode(&input, "75897", &cache).unwrap();
    assert_eq!(hit.name, "Later");
}

#[test]
fn test_production_code_matcher_no_hit() {
    let cache = sample_cache();
    let matcher = ProductionCodeMatcher { prompt_size: Some(1000) };
    let input = MatchInput::Candidates(vec!["9XYZ99".to_string()]);
    assert_eq!(matcher.match_episode(&input, "75897", &cache), None);
    let empty = MatchInput::Candidates(Vec::new());
    assert_eq!(matcher.match_episode(&empty, "75897", &cache), None);
}

#[test]
fn test_should_prompt_threshold() {
    let with_threshold = ProductionCodeMatcher { prompt_size: Some(1000) };
    assert!(with_threshold.should_prompt(1001));
    assert!(!with_threshold.should_prompt(1000));
    let without = ProductionCodeMatcher { prompt_size: None };
    assert!(!without.should_prompt(u64::MAX));
}

#[test]
fn test_subtitle_matcher() {
    let cache = sample_cache();
    let matcher = SubtitleMatcher;
    let hit = matcher
        .match_episode(&MatchInput::SeasonEpisode(4, 1), "75897", &cache)
        .unwrap();
    assert_eq!(hit.name, "Uncoded");
    assert_eq!(
        matcher.match_episode(&MatchInput::SeasonEpisode(9, 9), "75897", &cache),
        None
    );
}

#[test]
fn test_resolve_manual_input_as_code() {
    let cache = sample_cache();
    let hit = resolve_manual_input(&cache, "75897", "  6ABX08  ").unwrap();
    assert_eq!(hit.name, "Later");
}

#[test]
fn test_resolve_manual_input_as_sxxexx() {
    let cache = sample_cache();
    let hit = resolve_manual_input(&cache, "75897", "S04E01").unwrap();
    assert_eq!(hit.name, "Uncoded");
    assert_eq!(resolve_manual_input(&cache, "75897", "S09E09"), None);
    assert_eq!(resolve_manual_input(&cache, "75897", "gibberish"), None);
}
