use std::sync::Arc;

use url_crawler::url::{filter_url, process_url, url_parts, Error, ParseKind, UrlParts};

#[test]
fn url_parts_constructs_url_with_www_correctly() {
    let result = url_parts("https://www.github.com");

    let expected = Ok(UrlParts {
        sub_domain: "www".to_owned(),
        root_domain: "github.com".to_owned(),
    });

    assert_eq!(result, expected);
}

#[test]
fn url_parts_constructs_url_without_www_correctly() {
    let result = url_parts("https://github.com");

    let expected = Ok(UrlParts {
        sub_domain: "www".to_owned(),
        root_domain: "github.com".to_owned(),
    });

    assert_eq!(result, expected);
}

#[test]
fn url_parts_url_constructs_url_without_a_host_correctly() {
    let result = url_parts("urlunix:/run/foo.socket");

    let expected = Ok(UrlParts {
        sub_domain: "".to_owned(),
        root_domain: "".to_owned(),
    });

    assert_eq!(result, expected);
}

#[test]
fn url_parts_returns_error_if_invalid_url() {
    let result = url_parts("@.,~");

    let expected = Err(Error::ParseError(ParseKind::RelativeUrlWithoutBase));

    assert_eq!(result, expected);
}

#[test]
fn url_parts_reports_a_bad_host_as_other() {
    let result = url_parts("https://127.0.0.1");

    assert!(matches!(result, Err(Error::Other(_))));
}

#[test]
fn process_url_converts_relative_urls_to_absolute() {
    let link = "/users".to_owned();
    let expected = "https://github.com/users".to_owned();

    let actual = process_url(link, "https://github.com");

    assert_eq!(actual, expected);
}

#[test]
fn process_url_passes_absolute_urls_through() {
    let link = "https://other.com/x".to_owned();

    let actual = process_url(link.clone(), "https://example.com");

    assert_eq!(actual, link);
}

#[test]
fn filter_url_filters_out_external_domain_urls() {
    let link = "https://www.stackoverflow.com".to_owned();
    let original_url_parts = UrlParts {
        sub_domain: "www".to_owned(),
        root_domain: "google.com".to_owned(),
    };

    let actual = filter_url(link, Arc::new(Ok(original_url_parts)));
    let expected = None;

    assert_eq!(actual, expected);
}

#[test]
fn filter_url_keeps_internal_domain_url() {
    let link = "https://google.com".to_owned();
    let original_url_parts = UrlParts {
        sub_domain: "www".to_owned(),
        root_domain: "google.com".to_owned(),
    };

    let actual = filter_url(link, Arc::new(Ok(original_url_parts)));
    let expected = Some("https://google.com".to_owned());

    assert_eq!(actual, expected);
}

#[test]
fn domain_identity_defaults_missing_subdomain_to_www() {
    let bare = url_parts("https://example.com");
    let www = url_parts("https://www.example.com");
    let blog = url_parts("https://blog.example.com");

    assert_eq!(bare, www);
    assert_ne!(bare, blog);
    assert_ne!(www, blog);
}
