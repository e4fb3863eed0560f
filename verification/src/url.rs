//! Domain scope: mapping a URL to its domain identity, resolving relative
//! references against a base URL, and filtering links against the identity
//! of the seed URL.

use vstd::prelude::*;

verus! {

/// How absolute-URL parsing of a string fails: a relative reference (which
/// can still be resolved against a base) is told apart from every other
/// malformed input.
#[derive(Clone, Copy, Debug, PartialEq, Eq, Structural)]
pub enum ParseKind {
    RelativeUrlWithoutBase,
    Other,
}

/// Why no domain identity could be computed for a URL.
#[derive(Debug, PartialEq)]
pub enum Error {
    /// The string is not syntactically an absolute URL.
    ParseError(ParseKind),
    /// The URL has a host, but the host is not a well-formed domain name;
    /// the payload is the domain parser's message.
    Other(String),
}

/// The domain identity of a URL: the subdomain label and the registrable
/// root domain. Scope decisions compare two of these for equality.
#[derive(Debug, PartialEq, Clone)]
pub struct UrlParts {
    pub sub_domain: String,
    pub root_domain: String,
}

/// Spec-level image of `UrlParts`.
#[verifier::ext_equal]
pub struct UrlPartsView {
    pub sub_domain: Seq<char>,
    pub root_domain: Seq<char>,
}

impl View for UrlParts {
    type V = UrlPartsView;

    open spec fn view(&self) -> UrlPartsView {
        UrlPartsView { sub_domain: self.sub_domain@, root_domain: self.root_domain@ }
    }
}

/// Spec-level image of `Error`.
#[verifier::ext_equal]
pub enum ErrorView {
    ParseError(ParseKind),
    Other(Seq<char>),
}

impl View for Error {
    type V = ErrorView;

    open spec fn view(&self) -> ErrorView {
        match self {
            Error::ParseError(kind) => ErrorView::ParseError(*kind),
            Error::Other(message) => ErrorView::Other(message@),
        }
    }
}

/// What absolute-URL parsing returns for a given string: on success, the
/// host component (if the URL has one); on failure, whether the string was
/// a relative reference without a base.
pub uninterp spec fn url_parse(s: Seq<char>) -> Result<Option<Seq<char>>, bool>;

/// The absolute URL that `reference` resolves to against `base`, or `None`
/// when `base` does not parse as an absolute URL or the join fails.
pub uninterp spec fn url_join(base: Seq<char>, reference: Seq<char>) -> Option<Seq<char>>;

/// How a host name splits into an optional subdomain prefix and an optional
/// registrable root domain, or the domain parser's message when the host is
/// not a well-formed domain name.
pub uninterp spec fn domain_split(host: Seq<char>) -> Result<
    (Option<Seq<char>>, Option<Seq<char>>),
    Seq<char>,
>;

/// Relies on `url::Url::parse` and `url::Url::host_str`: whether `s` parses
/// as an absolute URL and, if so, which host component it carries. Both
/// depend on the characters of `s` alone. `url::ParseError` has one variant,
/// `RelativeUrlWithoutBase`, for a relative reference; every other variant
/// is mapped to `ParseKind::Other`.
#[verifier::external_body]
fn parse_url_host(s: &str) -> (r: Result<Option<String>, ParseKind>)
    ensures
        match r {
            Ok(host) => url_parse(s@) == Ok::<Option<Seq<char>>, bool>(host.deep_view()),
            Err(kind) => url_parse(s@) == Err::<Option<Seq<char>>, bool>(
                kind == ParseKind::RelativeUrlWithoutBase,
            ),
        },
{
    match url::Url::parse(s) {
        Ok(parsed) => Ok(parsed.host_str().map(|h| h.to_owned())),
        Err(url::ParseError::RelativeUrlWithoutBase) => Err(ParseKind::RelativeUrlWithoutBase),
        Err(_) => Err(ParseKind::Other),
    }
}

/// Relies on `url::Url::join` on a base first parsed with `url::Url::parse`,
/// and on `url::Url::as_str`: the resolved absolute URL, which depends on
/// the two strings alone; `None` when parsing the base or joining fails.
#[verifier::external_body]
fn join_url(base: &str, reference: &str) -> (r: Option<String>)
    ensures
        url_join(base@, reference@) == r.deep_view(),
{
    match url::Url::parse(base) {
        Ok(parsed) => match parsed.join(reference) {
            Ok(joined) => Some(joined.as_str().to_owned()),
            Err(_) => None,
        },
        Err(_) => None,
    }
}

/// Relies on `addr::parse_domain_name`, `addr::domain::Name::prefix` and
/// `addr::domain::Name::root`: the split of a host name into subdomain
/// prefix and root domain, which depends on the host's characters alone; on
/// failure, the text of the error's `Display` form, likewise a function of
/// the input.
#[verifier::external_body]
fn split_domain(host: &str) -> (r: Result<(Option<String>, Option<String>), String>)
    ensures
        match r {
            Ok(parts) => domain_split(host@) == Ok::<
                (Option<Seq<char>>, Option<Seq<char>>),
                Seq<char>,
            >((parts.0.deep_view(), parts.1.deep_view())),
            Err(message) => domain_split(host@) == Err::<
                (Option<Seq<char>>, Option<Seq<char>>),
                Seq<char>,
            >(message@),
        },
{
    match addr::parse_domain_name(host) {
        Ok(name) => Ok((name.prefix().map(|p| p.to_owned()), name.root().map(|q| q.to_owned()))),
        Err(err) => Err(err.to_string()),
    }
}

/// The domain identity that `url_parts` computes for a URL: a parse failure
/// is reported as an error; a URL without a host gets the all-empty
/// identity; a missing subdomain prefix defaults to `"www"`, and a missing
/// root domain to the empty string.
pub open spec fn spec_url_parts(s: Seq<char>) -> Result<UrlPartsView, ErrorView> {
    match url_parse(s) {
        Err(relative) => Err(
            ErrorView::ParseError(
                if relative {
                    ParseKind::RelativeUrlWithoutBase
                } else {
                    ParseKind::Other
                },
            ),
        ),
        Ok(None) => Ok(UrlPartsView { sub_domain: Seq::empty(), root_domain: Seq::empty() }),
        Ok(Some(host)) => match domain_split(host) {
            Err(message) => Err(ErrorView::Other(message)),
            Ok(parts) => Ok(
                UrlPartsView {
                    sub_domain: match parts.0 {
                        Some(prefix) => prefix,
                        None => "www"@,
                    },
                    root_domain: match parts.1 {
                        Some(root) => root,
                        None => Seq::empty(),
                    },
                },
            ),
        },
    }
}

/// Spec-level image of a `url_parts` outcome.
pub open spec fn parts_result_view(r: Result<UrlParts, Error>) -> Result<UrlPartsView, ErrorView> {
    match r {
        Ok(parts) => Ok(parts@),
        Err(err) => Err(err@),
    }
}

/// Computes the domain identity of `url`.
pub fn url_parts(url: &str) -> (r: Result<UrlParts, Error>)
    ensures
        parts_result_view(r) == spec_url_parts(url@),
{
    match parse_url_host(url) {
        Err(kind) => Err(Error::ParseError(kind)),
        Ok(None) => Ok(UrlParts { sub_domain: String::new(), root_domain: String::new() }),
        Ok(Some(host)) => match split_domain(host.as_str()) {
            Err(message) => Err(Error::Other(message)),
            Ok((prefix, root)) => Ok(
                UrlParts {
                    sub_domain: match prefix {
                        Some(p) => p,
                        None => "www".to_owned(),
                    },
                    root_domain: match root {
                        Some(q) => q,
                        None => String::new(),
                    },
                },
            ),
        },
    }
}

/// What resolving a discovered link against the page it was found on
/// yields: a relative reference without a base is joined against the page's
/// URL (`None` when that is impossible); anything else passes through
/// unchanged.
pub open spec fn spec_try_process_url(url: Seq<char>, original_url: Seq<char>) -> Option<
    Seq<char>,
> {
    if url_parse(url) == Err::<Option<Seq<char>>, bool>(true) {
        url_join(original_url, url)
    } else {
        Some(url)
    }
}

/// Resolves `url` against `original_url`, requiring resolution to be
/// possible; `try_process_url` makes the same call without that demand.
pub fn process_url(url: String, original_url: &str) -> (r: String)
    requires
        spec_try_process_url(url@, original_url@) is Some,
    ensures
        Some(r@) == spec_try_process_url(url@, original_url@),
{
    match parse_url_host(url.as_str()) {
        Err(kind) => {
            if matches!(kind, ParseKind::RelativeUrlWithoutBase) {
                match join_url(original_url, url.as_str()) {
                    Some(joined) => joined,
                    None => vstd::pervasive::unreached(),
                }
            } else {
                url
            }
        },
        Ok(_) => url,
    }
}

/// Resolves `url` against `original_url`, reporting `None` when `url` is a
/// relative reference that cannot be joined against the base.
pub fn try_process_url(url: String, original_url: &str) -> (r: Option<String>)
    ensures
        r.deep_view() == spec_try_process_url(url@, original_url@),
{
    match parse_url_host(url.as_str()) {
        Err(kind) => {
            if matches!(kind, ParseKind::RelativeUrlWithoutBase) {
                match join_url(original_url, url.as_str()) {
                    Some(_joined) => Some(process_url(url, original_url)),
                    None => None,
                }
            } else {
                Some(process_url(url, original_url))
            }
        },
        Ok(_) => Some(process_url(url, original_url)),
    }
}

/// Structural equality of two domain identities.
pub open spec fn identity_eq(x: UrlPartsView, y: UrlPartsView) -> bool {
    x.sub_domain == y.sub_domain && x.root_domain == y.root_domain
}

/// Structural equality of two domain-identity outcomes: both succeed with
/// equal identities, or both fail in the same way.
pub open spec fn outcome_eq(
    x: Result<UrlPartsView, ErrorView>,
    y: Result<UrlPartsView, ErrorView>,
) -> bool {
    match (x, y) {
        (Ok(p), Ok(q)) => identity_eq(p, q),
        (Err(ErrorView::ParseError(j)), Err(ErrorView::ParseError(k))) => j == k,
        (Err(ErrorView::Other(s)), Err(ErrorView::Other(t))) => s == t,
        _ => false,
    }
}

/// A link is in scope exactly when computing its domain identity gives the
/// same outcome as the seed URL's.
pub open spec fn spec_filter_url(url: Seq<char>, original: Result<UrlPartsView, ErrorView>) -> Option<
    Seq<char>,
> {
    if outcome_eq(spec_url_parts(url), original) {
        Some(url)
    } else {
        None
    }
}

/// Compares two domain-identity outcomes for structural equality.
fn same_outcome(a: &Result<UrlParts, Error>, b: &Result<UrlParts, Error>) -> (r: bool)
    ensures
        r == outcome_eq(parts_result_view(*a), parts_result_view(*b)),
{
    match (a, b) {
        (Ok(x), Ok(y)) => x.sub_domain == y.sub_domain && x.root_domain == y.root_domain,
        (Err(Error::ParseError(j)), Err(Error::ParseError(k))) => match (j, k) {
            (ParseKind::RelativeUrlWithoutBase, ParseKind::RelativeUrlWithoutBase) => true,
            (ParseKind::Other, ParseKind::Other) => true,
            _ => false,
        },
        (Err(Error::Other(s)), Err(Error::Other(t))) => *s == *t,
        _ => false,
    }
}

/// Keeps `url` when its domain identity matches the seed's, and discards
/// it otherwise.
pub fn filter_url_ref(url: String, original_url_parts: &Result<UrlParts, Error>) -> (r: Option<
    String,
>)
    ensures
        r.deep_view() == spec_filter_url(url@, parts_result_view(*original_url_parts)),
{
    let current_url_parts = url_parts(url.as_str());
    if same_outcome(&current_url_parts, original_url_parts) {
        Some(url)
    } else {
        None
    }
}

/// `filter_url_ref` for a seed identity behind a shared handle, as the
/// worker tasks hold it.
pub fn filter_url(url: String, original_url_parts: std::sync::Arc<Result<UrlParts, Error>>) -> (r:
    Option<String>)
    ensures
        r.deep_view() == spec_filter_url(url@, parts_result_view(*original_url_parts)),
{
    filter_url_ref(url, &*original_url_parts)
}

} // verus!
