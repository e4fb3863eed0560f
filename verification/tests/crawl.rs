use url_crawler::crawler::crawl_step;
use url_crawler::data_store::{DataStore, Store};
use url_crawler::fetch::{Fetch, FetchError};
use url_crawler::url::url_parts;
use url_crawler::url_frontier::{Dequeue, URLFrontier, URLFrontierBuilder};

/// Serves one seed page with two in-scope relative links and one external
/// absolute link; every other page is empty.
struct SeedPageFetch;

impl Fetch for SeedPageFetch {
    fn new() -> Self {
        SeedPageFetch
    }

    fn get(&self, url: &str) -> Result<String, FetchError> {
        if url == "https://example.com" {
            Ok("<a href=\"/about\">a</a><a href=\"/contact\">b</a><a href=\"https://external.com\">c</a>".to_owned())
        } else {
            Ok(String::new())
        }
    }
}

/// A finite, fully linked site: three pages, each linking all three.
struct FiniteSiteFetch;

impl Fetch for FiniteSiteFetch {
    fn new() -> Self {
        FiniteSiteFetch
    }

    fn get(&self, _url: &str) -> Result<String, FetchError> {
        Ok("<a href=\"https://example.com/a\">a</a><a href=\"https://example.com/b\">b</a><a href=\"https://example.com/c\">c</a>".to_owned())
    }
}

/// A network that is always down.
struct FailingFetch;

impl Fetch for FailingFetch {
    fn new() -> Self {
        FailingFetch
    }

    fn get(&self, _url: &str) -> Result<String, FetchError> {
        Err(FetchError {
            message: "connection refused".to_owned(),
        })
    }
}

/// A fetch that must never be reached.
struct PanicFetch;

impl Fetch for PanicFetch {
    fn new() -> Self {
        PanicFetch
    }

    fn get(&self, url: &str) -> Result<String, FetchError> {
        panic!("fetched {} although the URL was already visited", url);
    }
}

#[test]
fn seed_page_links_are_scoped_and_recorded() {
    let mut frontier: URLFrontier<String> = URLFrontierBuilder::new()
        .value("https://example.com".to_owned())
        .build();
    let mut store = Store::new();
    let http = SeedPageFetch::new();
    let seed_parts = url_parts("https://example.com");

    let more = crawl_step(&mut frontier, &mut store, &http, &seed_parts);
    assert!(more);

    let entry = store.get(&"https://example.com".to_owned()).unwrap();
    assert!(entry.visited);
    assert_eq!(
        entry.urls_found,
        vec![
            "https://example.com/about".to_owned(),
            "https://example.com/contact".to_owned(),
            "https://external.com".to_owned(),
        ]
    );

    assert_eq!(frontier.dequeue(), Some("https://example.com/about".to_owned()));
    assert_eq!(frontier.dequeue(), Some("https://example.com/contact".to_owned()));
    assert_eq!(frontier.dequeue(), None);
}

#[test]
fn crawl_of_finite_site_terminates_with_every_page_visited() {
    let pages = [
        "https://example.com/a",
        "https://example.com/b",
        "https://example.com/c",
    ];
    let mut frontier: URLFrontier<String> = URLFrontierBuilder::new()
        .value(pages[0].to_owned())
        .build();
    let mut store = Store::new();
    let http = FiniteSiteFetch::new();
    let seed_parts = url_parts(pages[0]);

    while crawl_step(&mut frontier, &mut store, &http, &seed_parts) {}

    for page in pages {
        assert!(store.has_visited(&page.to_owned()), "{} was not visited", page);
    }
    assert_eq!(frontier.dequeue(), None);
}

#[test]
fn failed_fetch_abandons_the_url_and_continues() {
    let mut frontier: URLFrontier<String> = URLFrontierBuilder::new()
        .value("https://example.com".to_owned())
        .build();
    let mut store = Store::new();
    let http = FailingFetch::new();
    let seed_parts = url_parts("https://example.com");

    let more = crawl_step(&mut frontier, &mut store, &http, &seed_parts);
    assert!(more);
    assert!(!store.has_entry(&"https://example.com".to_owned()));

    let done = crawl_step(&mut frontier, &mut store, &http, &seed_parts);
    assert!(!done);
}

#[test]
fn visited_url_is_skipped_without_a_fetch() {
    let url = "https://example.com/seen".to_owned();
    let mut frontier: URLFrontier<String> =
        URLFrontierBuilder::new().value(url.clone()).build();
    let mut store = Store::new();
    store.add(url.clone(), None);
    store.visited(&url);
    let http = PanicFetch::new();
    let seed_parts = url_parts("https://example.com");

    let more = crawl_step(&mut frontier, &mut store, &http, &seed_parts);
    assert!(more);
    assert_eq!(frontier.dequeue(), None);
}
