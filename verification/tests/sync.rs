use episode_matcher::cache::Cache;
use episode_matcher::tvdb::choose_search_result;
use episode_matcher::tvdb::Episode;
use episode_matcher::tvdb::EpisodeSync;
use episode_matcher::tvdb::ExtendedOutcome;
use episode_matcher::tvdb::PageOutcome;
use episode_matcher::tvdb::SearchResult;
use episode_matcher::tvdb::TvdbClient;

#[test]
fn test_pagination_stops_at_empty_page() {
    // Pages zero through two return episodes; page three is empty: the
    // sync asks for no page after three, without an error.
    let mut sync = EpisodeSync::new();
    let mut cache = Cache::new();

    assert_eq!(sync.page_to_fetch(), Some(0));
    sync.on_page(PageOutcome::Page(vec![Episode { id: 1 }, Episode { id: 2 }]));
    assert_eq!(sync.page_to_fetch(), Some(1));
    sync.on_page(PageOutcome::Page(vec![Episode { id: 3 }]));
    assert_eq!(sync.page_to_fetch(), Some(2));
    sync.on_page(PageOutcome::Page(vec![Episode { id: 4 }]));
    assert_eq!(sync.page_to_fetch(), Some(3));
    sync.on_page(PageOutcome::Page(Vec::new()));
    assert_eq!(sync.page_to_fetch(), None);
    assert!(!sync.failed());

    // The collected episodes are extended in page order.
    assert_eq!(sync.episode_to_extend(), Some(Episode { id: 1 }));
    sync.on_extended(
        &mut cache,
        "75897",
        &ExtendedOutcome::Fetched {
            production_code: Some("3X22".to_string()),
            season_number: Some(3),
            episode_number: Some(22),
            name: "First".to_string(),
        },
    );
    assert_eq!(sync.episode_to_extend(), Some(Episode { id: 2 }));
}

#[test]
fn test_pagination_stops_at_not_found() {
    let mut sync = EpisodeSync::new();
    assert_eq!(sync.page_to_fetch(), Some(0));
    sync.on_page(PageOutcome::NotFound);
    assert_eq!(sync.page_to_fetch(), None);
    assert!(!sync.failed());
    assert_eq!(sync.episode_to_extend(), None);
}

#[test]
fn test_page_failure_is_fatal() {
    let mut sync = EpisodeSync::new();
    sync.on_page(PageOutcome::Page(vec![Episode { id: 1 }]));
    sync.on_page(PageOutcome::Failure);
    assert_eq!(sync.page_to_fetch(), None);
    assert!(sync.failed());
    // A failed sync extends nothing.
    assert_eq!(sync.episode_to_extend(), None);
}

#[test]
fn test_failed_extended_fetch_skips_episode_entirely() {
    // An episode whose extended fetch fails reaches neither index, even
    // though the summary fetch carried its id; the next episode is still
    // processed and cached.
    let mut sync = EpisodeSync::new();
    let mut cache = Cache::new();
    sync.on_page(PageOutcome::Page(vec![Episode { id: 1 }, Episode { id: 2 }]));
    sync.on_page(PageOutcome::Page(Vec::new()));

    assert_eq!(sync.episode_to_extend(), Some(Episode { id: 1 }));
    sync.on_extended(&mut cache, "75897", &ExtendedOutcome::Failure);
    assert!(!cache.has_series_episodes("75897"));

    assert_eq!(sync.episode_to_extend(), Some(Episode { id: 2 }));
    sync.on_extended(
        &mut cache,
        "75897",
        &ExtendedOutcome::Fetched {
            production_code: Some("6ABX08".to_string()),
            season_number: Some(6),
            episode_number: Some(8),
            name: "Second".to_string(),
        },
    );
    assert_eq!(sync.episode_to_extend(), None);

    assert!(cache.get_episode("75897", "6abx08").is_some());
    assert!(cache.get_episode_by_sxxexx("75897", 6, 8).is_some());
    assert!(cache.get_episode("75897", "3x22").is_none());
}

#[test]
fn test_extended_record_without_numbers_is_skipped() {
    let mut sync = EpisodeSync::new();
    let mut cache = Cache::new();
    sync.on_page(PageOutcome::Page(vec![Episode { id: 1 }]));
    sync.on_page(PageOutcome::NotFound);
    sync.on_extended(
        &mut cache,
        "75897",
        &ExtendedOutcome::Fetched {
            production_code: Some("3X22".to_string()),
            season_number: None,
            episode_number: Some(22),
            name: "Numberless".to_string(),
        },
    );
    assert!(!cache.has_series_episodes("75897"));
    assert!(cache.get_episode("75897", "3x22").is_none());
}

#[test]
fn test_client_token_lifecycle() {
    let mut client = TvdbClient::new("SECRET-REDACTED".to_string());
    assert!(client.needs_login());
    assert_eq!(client.token(), None);
    assert_eq!(client.api_key(), "SECRET-REDACTED");
    client.set_token("bearer-token".to_string());
    assert!(!client.needs_login());
    assert_eq!(client.token(), Some(&"bearer-token".to_string()));
}

#[test]
fn test_search_result_display_name() {
    let with_eng = SearchResult {
        tvdb_id: "75897".to_string(),
        name: Some(vec![
            ("deu".to_string(), "Eine Serie".to_string()),
            ("eng".to_string(), "A Series".to_string()),
        ]),
    };
    assert_eq!(with_eng.display_name(), "A Series");

    let without_eng = SearchResult {
        tvdb_id: "75897".to_string(),
        name: Some(vec![("deu".to_string(), "Eine Serie".to_string())]),
    };
    assert_eq!(without_eng.display_name(), "Eine Serie");

    let nameless = SearchResult {
        tvdb_id: "75897".to_string(),
        name: None,
    };
    assert_eq!(nameless.display_name(), "Unknown");
}

#[test]
fn test_choose_search_result() {
    let results = vec![
        SearchResult {
            tvdb_id: "11".to_string(),
            name: None,
        },
        SearchResult {
            tvdb_id: "22".to_string(),
            name: None,
        },
    ];
    assert_eq!(choose_search_result(&results, 1), Some("11".to_string()));
    assert_eq!(choose_search_result(&results, 2), Some("22".to_string()));
    assert_eq!(choose_search_result(&results, 0), None);
    assert_eq!(choose_search_result(&results, 3), None);
}
