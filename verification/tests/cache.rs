use episode_matcher::cache::Cache;
use episode_matcher::models::EpisodeEntry;

fn entry(code: Option<&str>, season: u64, episode: u64, name: &str) -> EpisodeEntry {
    EpisodeEntry {
        production_code: code.map(|c| c.to_string()),
        season_number: season,
        episode_number: episode,
        name: name.to_string(),
    }
}

#[test]
fn test_series_name_roundtrip() {
    let mut cache = Cache::new();
    assert_eq!(cache.get_series_name("75897"), None);
    cache.set_series_name("75897".to_string(), "Some Show".to_string());
    assert_eq!(cache.get_series_name("75897"), Some("Some Show".to_string()));
    // Upsert overwrites.
    cache.set_series_name("75897".to_string(), "Renamed Show".to_string());
    assert_eq!(
        cache.get_series_name("75897"),
        Some("Renamed Show".to_string())
    );
}

#[test]
fn test_code_lookup_is_case_insensitive() {
    // Any case variant of a stored production code finds the entry.
    let mut cache = Cache::new();
    let e = entry(Some("6ABX08"), 6, 8, "An Episode");
    cache.set_episode("75897", &e);
    assert_eq!(cache.get_episode("75897", "6abx08"), Some(e.clone()));
    assert_eq!(cache.get_episode("75897", "6ABX08"), Some(e.clone()));
    assert_eq!(cache.get_episode("75897", "6AbX08"), Some(e));
    assert_eq!(cache.get_episode("75897", "6abx09"), None);
    assert_eq!(cache.get_episode("other", "6abx08"), None);
}

#[test]
fn test_season_episode_lookup_with_and_without_code() {
    let mut cache = Cache::new();
    let coded = entry(Some("3X22"), 3, 22, "Coded");
    let uncoded = entry(None, 4, 1, "Uncoded");
    cache.set_episode("75897", &coded);
    cache.set_episode("75897", &uncoded);
    assert_eq!(cache.get_episode_by_sxxexx("75897", 3, 22), Some(coded));
    assert_eq!(
        cache.get_episode_by_sxxexx("75897", 4, 1),
        Some(uncoded.clone())
    );
    assert_eq!(cache.get_episode_by_sxxexx("75897", 4, 2), None);
    // The uncoded entry reached only the season/episode index.
    assert_eq!(cache.get_episode("75897", ""), None);
}

#[test]
fn test_has_series_episodes() {
    let mut cache = Cache::new();
    assert!(!cache.has_series_episodes("75897"));
    // A single inserted episode is enough, even one without a code.
    cache.set_episode("75897", &entry(None, 1, 1, "Pilot"));
    assert!(cache.has_series_episodes("75897"));
    assert!(!cache.has_series_episodes("unknown"));
}

#[test]
fn test_set_episode_overwrites() {
    let mut cache = Cache::new();
    cache.set_episode("75897", &entry(Some("1AYW01"), 10, 1, "First Title"));
    let replacement = entry(Some("1AYW01"), 10, 1, "Corrected Title");
    cache.set_episode("75897", &replacement);
    assert_eq!(
        cache.get_episode("75897", "1ayw01"),
        Some(replacement.clone())
    );
    assert_eq!(cache.get_episode_by_sxxexx("75897", 10, 1), Some(replacement));
}

#[test]
fn test_entry_listings_round_trip() {
    let mut cache = Cache::new();
    cache.set_series_name("75897".to_string(), "Some Show".to_string());
    cache.set_episode("75897", &entry(Some("3X22"), 3, 22, "Coded"));
    cache.set_episode("75897", &entry(None, 4, 1, "Uncoded"));

    let series = cache.series_entries();
    assert_eq!(series, vec![("75897".to_string(), "Some Show".to_string())]);

    let mut episodes = cache.episode_entries();
    episodes.sort_by_key(|row| (row.1, row.2));
    assert_eq!(episodes.len(), 2);
    assert_eq!(episodes[0].0, "75897");
    assert_eq!(episodes[0].3.name, "Coded");
    assert_eq!(episodes[1].3.name, "Uncoded");

    let codes = cache.code_entries();
    assert_eq!(codes.len(), 1);
    assert_eq!(codes[0].1, "3x22");
    assert_eq!(codes[0].2.name, "Coded");
}
