use url_crawler::url_frontier::{Dequeue, Enqueue, URLFrontier, URLFrontierBuilder};

#[test]
fn url_frontier_builder_builds_url_frontier() {
    let mut url_frontier = URLFrontierBuilder::new()
        .delay_s(1)
        .value("one".to_string())
        .build();

    assert!(url_frontier.delay_s() == Some(1));
    assert!(url_frontier.dequeue() == Some("one".to_owned()));
}

#[test]
fn url_frontier_dequeues_value() {
    let mut url_frontier = URLFrontierBuilder::new()
        .delay_s(0)
        .value("one".to_string())
        .build();

    let val = url_frontier.dequeue();

    assert_eq!(val, Some("one".to_owned()));
}

#[test]
fn url_frontier_dequeues_none_if_there_are_no_values_in_the_queue() {
    let mut url_frontier: URLFrontier<String> = URLFrontierBuilder::new().delay_s(0).build();

    let val = url_frontier.dequeue();

    assert_eq!(val, None);
}

#[test]
fn url_frontier_enqueues_value() {
    let mut url_frontier = URLFrontierBuilder::new().delay_s(0).build();

    url_frontier.enqueue("two".to_owned());
    let val = url_frontier.dequeue();

    assert_eq!(val, Some("two".to_owned()));
    assert_eq!(url_frontier.dequeue(), None);
}

#[test]
fn url_frontier_keeps_first_in_first_out_order() {
    let mut url_frontier: URLFrontier<String> = URLFrontierBuilder::new().build();

    url_frontier.enqueue("first".to_owned());
    url_frontier.enqueue("second".to_owned());
    url_frontier.enqueue("first".to_owned());

    assert_eq!(url_frontier.dequeue(), Some("first".to_owned()));
    assert_eq!(url_frontier.dequeue(), Some("second".to_owned()));
    assert_eq!(url_frontier.dequeue(), Some("first".to_owned()));
    assert_eq!(url_frontier.dequeue(), None);
}

#[test]
fn url_frontier_builder_zero_delay_means_no_throttling() {
    let frontier: URLFrontier<String> = URLFrontierBuilder::new().delay_s(0).build();

    assert_eq!(frontier.delay_s(), None);
}
