//! HTML link extraction: the `href` attribute values of a document's
//! anchor elements, in document order, neither deduplicated nor validated
//! as URLs.

use vstd::prelude::*;

verus! {

/// The `href` attribute values of the anchor elements of an HTML document,
/// in document order — what the HTML parser extracts from a given text.
pub uninterp spec fn links_of(document: Seq<char>) -> Seq<Seq<char>>;

/// Relies on `scraper::Html::parse_document`, `scraper::Selector::parse`
/// and the selection iterator: the `href` attributes of the document's `a`
/// elements, walked in document order; a function of the document text
/// alone. The `a` selector is well-formed, so `Selector::parse` cannot
/// fail on it.
#[verifier::external_body]
fn extract_links(document: &str) -> (r: Vec<String>)
    ensures
        r.deep_view() == links_of(document@),
{
    let parsed = scraper::Html::parse_document(document);
    let selector = scraper::Selector::parse("a").unwrap();
    parsed.select(&selector).filter_map(
        |element| element.value().attr("href").map(|h| h.to_owned()),
    ).collect()
}

/// Holds an HTML document and hands out the links found in it.
pub struct Parser {
    html: String,
}

impl Parser {
    /// The document this parser reads.
    pub closed spec fn document(&self) -> Seq<char> {
        self.html@
    }

    /// Takes the HTML document to extract links from.
    pub fn new(html_doc_str: String) -> (r: Parser)
        ensures
            r.document() == html_doc_str@,
    {
        Parser { html: html_doc_str }
    }

    /// All `href` attribute values of the document's anchor elements, in
    /// document order.
    pub fn all_links(self) -> (r: Vec<String>)
        ensures
            r.deep_view() == links_of(self.document()),
    {
        extract_links(self.html.as_str())
    }
}

} // verus!
