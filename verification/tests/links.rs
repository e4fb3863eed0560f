use url_crawler::parser::Parser;

#[test]
fn all_links_extracts_existing_links_from_html_string() {
    let parser = Parser::new(
        "<p>One</p><a href=\"/link\"a>Link</a><p>Two</p><a href=\"/link-two\">Link 2</a>"
            .to_owned(),
    );
    let mut links = parser.all_links();

    assert!(links.len() == 2);
    assert_eq!(links.pop(), Some("/link-two".to_owned()));
    assert_eq!(links.pop(), Some("/link".to_owned()));
    assert_eq!(links.pop(), None);
}

#[test]
fn all_links_skips_anchors_without_href() {
    let parser = Parser::new("<a>no target</a><a href=\"/only\">x</a>".to_owned());

    assert_eq!(parser.all_links(), vec!["/only".to_owned()]);
}

#[test]
fn all_links_of_empty_document_is_empty() {
    let parser = Parser::new(String::new());

    assert_eq!(parser.all_links(), Vec::<String>::new());
}
