use imrs::error::Error;
use imrs::state::{AppState, IdAndTitle, Opt, FRESH_WINDOW_SECONDS};
use imrs::tvshow::{aggregate, resolve_search_page, test_ratings};

const FIND_HTML: &str = "<html><body><ul>\
<li class=\"find-title-result\"><a href=\"/title/tt0903747/?ref_=fn_tv\">Breaking Bad</a></li>\
</ul></body></html>";

fn ident() -> IdAndTitle {
    IdAndTitle { id: "tt0903747".to_string(), title: "Breaking Bad".to_string() }
}

fn fresh_state() -> AppState {
    AppState::new(Opt::default())
}

#[test]
fn check_misses_on_empty_cache() {
    let state = fresh_state();
    assert!(state.check(&ident(), 1_000_000).is_none());
}

#[test]
fn cache_freshness_boundary() {
    let mut state = fresh_state();
    let t: i64 = 1_000_000;
    let installed = state.update(&ident(), t, Ok(test_ratings()));
    assert!(installed.is_ok());
    // 23h59m after the fetch: still fresh
    assert!(state.check(&ident(), t + 86340).is_some());
    // one second short of 24h: still fresh
    assert!(state.check(&ident(), t + 86399).is_some());
    // exactly 24h: stale (the test is strictly less than 24h)
    assert!(state.check(&ident(), t + 86400).is_none());
    // 24h00m01s: stale
    assert!(state.check(&ident(), t + 86401).is_none());
}

#[test]
fn fresh_window_is_24_hours() {
    assert_eq!(FRESH_WINDOW_SECONDS, 24 * 60 * 60);
}

#[test]
fn served_entry_is_the_cached_one() {
    let mut state = fresh_state();
    let t: i64 = 500;
    state.update(&ident(), t, Ok(test_ratings())).unwrap();
    let entry = state.check(&ident(), t + 10).unwrap();
    assert_eq!(entry.date, t);
    assert_eq!(entry.ratings.name, "Breaking Bad");
    assert_eq!(entry.ratings.ratings.len(), 5);
}

#[test]
fn refresh_replaces_entry_whole() {
    let mut state = fresh_state();
    state.update(&ident(), 100, Ok(test_ratings())).unwrap();
    let mut second = test_ratings();
    second.name = "Breaking Bad (refetched)".to_string();
    state.update(&ident(), 200_000, Ok(second)).unwrap();
    let entry = state.check(&ident(), 200_001).unwrap();
    assert_eq!(entry.date, 200_000);
    assert_eq!(entry.ratings.name, "Breaking Bad (refetched)");
    // still a single entry for the id
    assert_eq!(state.entries.len(), 1);
}

#[test]
fn cache_atomicity_on_failed_refresh() {
    let mut state = fresh_state();
    let t: i64 = 1_000;
    state.update(&ident(), t, Ok(test_ratings())).unwrap();
    // a later refresh fails: the pre-existing entry must be untouched
    let r = state.update(&ident(), t + 200_000, Err(Error::TransportError));
    assert_eq!(r, Err(Error::TransportError));
    let entry = state.check(&ident(), t + 10).unwrap();
    assert_eq!(entry.date, t);
    assert_eq!(entry.ratings.name, "Breaking Bad");
    assert_eq!(entry.ratings.ratings.len(), 5);
}

#[test]
fn aggregation_failure_reaches_cache_atomically() {
    // a cached record exists; a refresh whose aggregation failed must
    // leave it untouched, and no partial record may appear anywhere
    let mut state = fresh_state();
    let t: i64 = 2_000;
    state.update(&ident(), t, Ok(test_ratings())).unwrap();
    let pages = vec![
        ("1".to_string(), Ok("<html><body></body></html>".to_string())),
        ("2".to_string(), Err(Error::TransportError)),
    ];
    let failed = aggregate("Breaking Bad", &pages);
    assert_eq!(failed, Err(Error::TransportError));
    let r = state.update(&ident(), t + 100_000, failed);
    assert_eq!(r, Err(Error::TransportError));
    let entry = state.check(&ident(), t + 1).unwrap();
    assert_eq!(entry.date, t);
    assert_eq!(entry.ratings, test_ratings());
}

#[test]
fn failed_refresh_on_empty_cache_stores_nothing() {
    let mut state = fresh_state();
    let r = state.update(&ident(), 1_000, Err(Error::ParseError));
    assert_eq!(r, Err(Error::ParseError));
    assert!(state.entries.is_empty());
    assert!(state.check(&ident(), 1_001).is_none());
}

#[test]
fn update_now_serves_immediately() {
    let mut state = fresh_state();
    let r = state.update_now(&ident(), Ok(test_ratings())).unwrap();
    assert_eq!(r.name, "Breaking Bad");
    let entry = state.check_now(&ident()).unwrap();
    assert_eq!(entry.ratings.name, "Breaking Bad");
}

#[test]
fn identity_cache_roundtrip() {
    let mut state = fresh_state();
    assert!(state.cached_identity("breaking bad").is_none());
    state.store_identity("breaking bad", ident());
    let cached = state.cached_identity("breaking bad").unwrap();
    assert_eq!(cached.id, "tt0903747");
    assert_eq!(cached.title, "Breaking Bad");
    // a different name is still a miss
    assert!(state.cached_identity("other show").is_none());
}

#[test]
fn identity_cache_last_write_wins() {
    let mut state = fresh_state();
    state.store_identity("name", ident());
    state.store_identity(
        "name",
        IdAndTitle { id: "tt0000002".to_string(), title: "Another".to_string() },
    );
    let cached = state.cached_identity("name").unwrap();
    assert_eq!(cached.id, "tt0000002");
    assert_eq!(state.names.len(), 1);
}

#[test]
fn idempotent_identity_resolution() {
    // resolving the same name twice against an unchanged source yields
    // identical identities
    let first = resolve_search_page(FIND_HTML).unwrap();
    let second = resolve_search_page(FIND_HTML).unwrap();
    assert_eq!(first, second);
}

#[test]
fn resolved_names_in_insertion_order() {
    let mut state = fresh_state();
    state.store_identity("zeta", ident());
    state.store_identity("alpha", ident());
    assert_eq!(state.resolved_names(), vec!["zeta".to_string(), "alpha".to_string()]);
}

#[test]
fn default_configuration() {
    let opt = Opt::default();
    assert_eq!(opt.log_level, "info");
    assert_eq!(opt.addr, "::1");
    assert_eq!(opt.port, 8080);
    assert_eq!(opt.static_dir, "./dist");
    assert_eq!(opt.url_prefix, "http://localhost:8080");
}
