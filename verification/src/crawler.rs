//! The worker loop's logic: dequeue a URL, skip it when already visited,
//! record and mark a fetched page, and resolve, record and scope-filter
//! each discovered link. Fetching is the `Fetch` capability's task, and the
//! driving loop together with the politeness sleep belongs to the binary;
//! everything a worker decides is here and verified.

use vstd::prelude::*;

use crate::data_store::{spec_add, spec_has_visited, spec_visited, DataStore, EntryView};
use crate::parser::{links_of, Parser};
use crate::url::{
    parts_result_view, spec_filter_url, spec_try_process_url, try_process_url, filter_url_ref, Error,
    ErrorView, UrlParts, UrlPartsView,
};
use crate::url_frontier::{Dequeue, Enqueue, Queue};
use crate::fetch::Fetch;

verus! {

/// The shared structures a worker acts on, seen abstractly: the frontier's
/// pending URLs, head first, and the store's contents.
#[verifier::ext_equal]
pub struct CrawlState {
    pub frontier: Seq<Seq<char>>,
    pub store: Map<Seq<char>, EntryView>,
}

/// The views of a queue's pending URLs, in order.
pub open spec fn urls_view(urls: Seq<String>) -> Seq<Seq<char>> {
    Seq::new(urls.len(), |i: int| urls[i]@)
}

/// What handling one discovered link does. The link is resolved against
/// the page it was found on (an unresolvable link is dropped); the edge is
/// recorded unconditionally; and the resolved URL is enqueued only when it
/// matches the seed's domain identity and is not yet visited.
pub open spec fn spec_handle_link(
    s: CrawlState,
    page: Seq<char>,
    link: Seq<char>,
    seed: Result<UrlPartsView, ErrorView>,
) -> CrawlState {
    match spec_try_process_url(link, page) {
        None => s,
        Some(resolved) => {
            let store1 = spec_add(s.store, page, Some(resolved));
            if spec_filter_url(resolved, seed) is Some && !spec_has_visited(store1, resolved) {
                CrawlState { frontier: s.frontier.push(resolved), store: store1 }
            } else {
                CrawlState { frontier: s.frontier, store: store1 }
            }
        },
    }
}

/// Handling a page's links, in document order.
pub open spec fn spec_handle_links(
    s: CrawlState,
    page: Seq<char>,
    links: Seq<Seq<char>>,
    seed: Result<UrlPartsView, ErrorView>,
) -> CrawlState
    decreases links.len(),
{
    if links.len() == 0 {
        s
    } else {
        spec_handle_links(spec_handle_link(s, page, links[0], seed), page, links.drop_first(), seed)
    }
}

/// What processing one successfully fetched page does: an entry for the
/// page is made sure to exist, the page is marked visited, and its links
/// are handled in document order.
pub open spec fn spec_process_page(
    s: CrawlState,
    page: Seq<char>,
    content: Seq<char>,
    seed: Result<UrlPartsView, ErrorView>,
) -> CrawlState {
    let store1 = spec_visited(spec_add(s.store, page, None), page);
    spec_handle_links(
        CrawlState { frontier: s.frontier, store: store1 },
        page,
        links_of(content),
        seed,
    )
}

/// One worker iteration on the abstract state, given what the fetch
/// returned for the dequeued URL — `None` for a failure, in which case the
/// URL is abandoned. An empty frontier, and a dequeued URL that is already
/// visited, change nothing beyond the dequeue itself.
pub open spec fn spec_crawl_step(
    s: CrawlState,
    fetched: Option<Seq<char>>,
    seed: Result<UrlPartsView, ErrorView>,
) -> CrawlState {
    if s.frontier.len() == 0 {
        s
    } else {
        let url = s.frontier[0];
        let s1 = CrawlState { frontier: s.frontier.drop_first(), store: s.store };
        if spec_has_visited(s.store, url) {
            s1
        } else {
            match fetched {
                None => s1,
                Some(content) => spec_process_page(s1, url, content, seed),
            }
        }
    }
}

/// Whether two abstract states are one worker iteration apart, for some
/// fetch outcome. What a fetch returns is the network's choice, so a
/// worker promises no more than this.
pub open spec fn crawl_step_rel(
    s0: CrawlState,
    s1: CrawlState,
    seed: Result<UrlPartsView, ErrorView>,
) -> bool {
    exists|fetched: Option<Seq<char>>| s1 =~= #[trigger] spec_crawl_step(s0, fetched, seed)
}

/// Pushing a URL onto a queue pushes its view onto the queue's view.
proof fn lemma_urls_view_push(urls: Seq<String>, pushed: Seq<String>, x: String)
    requires
        pushed == urls.push(x),
    ensures
        urls_view(pushed) =~= urls_view(urls).push(x@),
{
}

/// Records a fetched page in the store and handles its links: the exact
/// image of `spec_process_page` on the shared state.
#[verifier::loop_isolation(false)]
pub fn process_page<Q: Queue<String>, D: DataStore>(
    url_frontier: &mut Q,
    data_store: &mut D,
    current_url: &String,
    content: String,
    original_url_parts: &Result<UrlParts, Error>,
)
    ensures
        ({
            let s1 = spec_process_page(
                CrawlState {
                    frontier: urls_view(old(url_frontier)@),
                    store: old(data_store).entries(),
                },
                current_url@,
                content@,
                parts_result_view(*original_url_parts),
            );
            urls_view(final (url_frontier)@) == s1.frontier && final (data_store).entries()
                == s1.store
        }),
{
    let ghost seed = parts_result_view(*original_url_parts);
    let ghost content_view = content@;
    let ghost frontier0 = urls_view(url_frontier@);

    data_store.add(current_url.clone(), None);
    data_store.visited(current_url);

    let ghost s_mid = CrawlState { frontier: frontier0, store: data_store.entries() };
    let ghost links = links_of(content_view);

    let urls_found = Parser::new(content).all_links();

    proof {
        assert(links.skip(0) =~= links);
    }

    let mut i: usize = 0;
    while i < urls_found.len()
        invariant
            i <= urls_found@.len(),
            urls_found.deep_view() == links,
            spec_handle_links(
                CrawlState { frontier: urls_view(url_frontier@), store: data_store.entries() },
                current_url@,
                links.skip(i as int),
                seed,
            ) == spec_handle_links(s_mid, current_url@, links, seed),
        decreases urls_found@.len() - i,
    {
        let ghost s_here = CrawlState {
            frontier: urls_view(url_frontier@),
            store: data_store.entries(),
        };
        let ghost link = links[i as int];
        assert(urls_found@[i as int]@ == links[i as int]);

        let url = urls_found[i].clone();
        match try_process_url(url, current_url.as_str()) {
            Some(resolved) => {
                let ghost resolved_view = resolved@;
                assert(spec_try_process_url(link, current_url@) == Some(resolved_view));
                data_store.add(current_url.clone(), Some(resolved.clone()));
                proof {
                    assert(data_store.entries() == spec_add(
                        s_here.store,
                        current_url@,
                        Some(resolved_view),
                    ));
                }
                let filtered = filter_url_ref(resolved, original_url_parts);
                match filtered {
                    Some(kept) => {
                        assert(spec_filter_url(resolved_view, seed) == Some(kept@));
                        if !data_store.has_visited(&kept) {
                            let ghost before_push = url_frontier@;
                            let ghost kept_snapshot = kept;
                            url_frontier.enqueue(kept);
                            proof {
                                lemma_urls_view_push(before_push, url_frontier@, kept_snapshot);
                                assert(kept_snapshot@ == resolved_view);
                                assert(CrawlState {
                                    frontier: urls_view(url_frontier@),
                                    store: data_store.entries(),
                                } =~= spec_handle_link(s_here, current_url@, link, seed));
                            }
                        } else {
                            proof {
                                assert(CrawlState {
                                    frontier: urls_view(url_frontier@),
                                    store: data_store.entries(),
                                } =~= spec_handle_link(s_here, current_url@, link, seed));
                            }
                        }
                    },
                    None => {
                        proof {
                            assert(spec_filter_url(resolved_view, seed) is None);
                            assert(CrawlState {
                                frontier: urls_view(url_frontier@),
                                store: data_store.entries(),
                            } =~= spec_handle_link(s_here, current_url@, link, seed));
                        }
                    },
                }
            },
            None => {
                proof {
                    assert(spec_try_process_url(link, current_url@) is None);
                    assert(CrawlState {
                        frontier: urls_view(url_frontier@),
                        store: data_store.entries(),
                    } =~= spec_handle_link(s_here, current_url@, link, seed));
                }
            },
        }

        proof {
            assert(CrawlState { frontier: urls_view(url_frontier@), store: data_store.entries() }
                =~= spec_handle_link(s_here, current_url@, link, seed));
            assert(links.skip(i as int).drop_first() =~= links.skip(i as int + 1));
            assert(links.skip(i as int)[0] == link);
        }
        i = i + 1;
    }
    proof {
        assert(links.skip(urls_found@.len() as int) =~= Seq::<Seq<char>>::empty());
    }
}

/// Dropping a queue's head drops the head of its view.
proof fn lemma_urls_view_drop_first(urls: Seq<String>, rest: Seq<String>)
    requires
        urls.len() > 0,
        rest == urls.drop_first(),
    ensures
        urls_view(rest) =~= urls_view(urls).drop_first(),
{
}

/// One full worker iteration against the shared structures: dequeue, skip
/// when visited, fetch through the given capability, and record the page
/// and its links on success. Returns whether the frontier had an item at
/// the moment of the dequeue; `false` is the observation that ends a
/// worker. The caller waits out the frontier's politeness delay before
/// each call; a fetch failure abandons the URL and the loop goes on.
pub fn crawl_step<Q: Queue<String>, D: DataStore, F: Fetch>(
    url_frontier: &mut Q,
    data_store: &mut D,
    http: &F,
    original_url_parts: &Result<UrlParts, Error>,
) -> (r: bool)
    ensures
        r == (old(url_frontier)@.len() > 0),
        crawl_step_rel(
            CrawlState {
                frontier: urls_view(old(url_frontier)@),
                store: old(data_store).entries(),
            },
            CrawlState {
                frontier: urls_view(final (url_frontier)@),
                store: final (data_store).entries(),
            },
            parts_result_view(*original_url_parts),
        ),
{
    let ghost s0 = CrawlState { frontier: urls_view(url_frontier@), store: data_store.entries() };
    let ghost seed = parts_result_view(*original_url_parts);
    match url_frontier.dequeue() {
        None => {
            proof {
                assert(CrawlState {
                    frontier: urls_view(url_frontier@),
                    store: data_store.entries(),
                } =~= spec_crawl_step(s0, None, seed));
            }
            false
        },
        Some(current_url) => {
            proof {
                lemma_urls_view_drop_first(old(url_frontier)@, url_frontier@);
                assert(current_url@ == s0.frontier[0]);
            }
            if data_store.has_visited(&current_url) {
                proof {
                    assert(CrawlState {
                        frontier: urls_view(url_frontier@),
                        store: data_store.entries(),
                    } =~= spec_crawl_step(s0, None, seed));
                }
                true
            } else {
                match http.get(current_url.as_str()) {
                    Err(_err) => {
                        proof {
                            assert(CrawlState {
                                frontier: urls_view(url_frontier@),
                                store: data_store.entries(),
                            } =~= spec_crawl_step(s0, None, seed));
                        }
                        true
                    },
                    Ok(content) => {
                        let ghost content_view = content@;
                        process_page(
                            url_frontier,
                            data_store,
                            &current_url,
                            content,
                            original_url_parts,
                        );
                        proof {
                            assert(CrawlState {
                                frontier: urls_view(url_frontier@),
                                store: data_store.entries(),
                            } =~= spec_crawl_step(s0, Some(content_view), seed));
                        }
                        true
                    },
                }
            }
        },
    }
}

/// Whether `m1` extends `m0`: every key persists, `visited` never falls
/// back from `true`, and every link log is extended in place, never
/// rewritten.
pub open spec fn store_monotone(m0: Map<Seq<char>, EntryView>, m1: Map<Seq<char>, EntryView>) -> bool {
    forall|k: Seq<char>| #[trigger]
        m0.contains_key(k) ==> {
            &&& m1.contains_key(k)
            &&& (m0[k].visited ==> m1[k].visited)
            &&& m0[k].urls_found.is_prefix_of(m1[k].urls_found)
        }
}

/// `store_monotone` is reflexive.
proof fn lemma_store_monotone_refl(m: Map<Seq<char>, EntryView>)
    ensures
        store_monotone(m, m),
{
    assert forall|k: Seq<char>| #[trigger] m.contains_key(k) implies {
        &&& m.contains_key(k)
        &&& (m[k].visited ==> m[k].visited)
        &&& m[k].urls_found.is_prefix_of(m[k].urls_found)
    } by {
        assert(m[k].urls_found =~= m[k].urls_found.subrange(0, m[k].urls_found.len() as int));
    }
}

/// `store_monotone` is transitive.
proof fn lemma_store_monotone_trans(
    m0: Map<Seq<char>, EntryView>,
    m1: Map<Seq<char>, EntryView>,
    m2: Map<Seq<char>, EntryView>,
)
    requires
        store_monotone(m0, m1),
        store_monotone(m1, m2),
    ensures
        store_monotone(m0, m2),
{
    assert forall|k: Seq<char>| #[trigger] m0.contains_key(k) implies {
        &&& m2.contains_key(k)
        &&& (m0[k].visited ==> m2[k].visited)
        &&& m0[k].urls_found.is_prefix_of(m2[k].urls_found)
    } by {
        assert(m1.contains_key(k));
        let p0 = m0[k].urls_found;
        let p2 = m2[k].urls_found;
        assert(p0 =~= p2.subrange(0, p0.len() as int));
    }
}

/// `add` only grows the store.
proof fn lemma_spec_add_monotone(
    m: Map<Seq<char>, EntryView>,
    key: Seq<char>,
    value: Option<Seq<char>>,
)
    ensures
        store_monotone(m, spec_add(m, key, value)),
{
    let m1 = spec_add(m, key, value);
    assert forall|k: Seq<char>| #[trigger] m.contains_key(k) implies {
        &&& m1.contains_key(k)
        &&& (m[k].visited ==> m1[k].visited)
        &&& m[k].urls_found.is_prefix_of(m1[k].urls_found)
    } by {
        assert(m[k].urls_found =~= m1[k].urls_found.subrange(0, m[k].urls_found.len() as int));
    }
}

/// `visited` only grows the store.
proof fn lemma_spec_visited_monotone(m: Map<Seq<char>, EntryView>, key: Seq<char>)
    ensures
        store_monotone(m, spec_visited(m, key)),
{
    let m1 = spec_visited(m, key);
    assert forall|k: Seq<char>| #[trigger] m.contains_key(k) implies {
        &&& m1.contains_key(k)
        &&& (m[k].visited ==> m1[k].visited)
        &&& m[k].urls_found.is_prefix_of(m1[k].urls_found)
    } by {
        assert(m[k].urls_found =~= m1[k].urls_found.subrange(0, m[k].urls_found.len() as int));
    }
}

/// Handling one link only grows the store.
proof fn lemma_handle_link_monotone(
    s: CrawlState,
    page: Seq<char>,
    link: Seq<char>,
    seed: Result<UrlPartsView, ErrorView>,
)
    ensures
        store_monotone(s.store, spec_handle_link(s, page, link, seed).store),
{
    match spec_try_process_url(link, page) {
        None => {
            lemma_store_monotone_refl(s.store);
        },
        Some(resolved) => {
            lemma_spec_add_monotone(s.store, page, Some(resolved));
        },
    }
}

/// Handling a page's links only grows the store.
proof fn lemma_handle_links_monotone(
    s: CrawlState,
    page: Seq<char>,
    links: Seq<Seq<char>>,
    seed: Result<UrlPartsView, ErrorView>,
)
    ensures
        store_monotone(s.store, spec_handle_links(s, page, links, seed).store),
    decreases links.len(),
{
    if links.len() == 0 {
        lemma_store_monotone_refl(s.store);
    } else {
        let s1 = spec_handle_link(s, page, links[0], seed);
        lemma_handle_link_monotone(s, page, links[0], seed);
        lemma_handle_links_monotone(s1, page, links.drop_first(), seed);
        lemma_store_monotone_trans(
            s.store,
            s1.store,
            spec_handle_links(s1, page, links.drop_first(), seed).store,
        );
    }
}

/// Handling one link enqueues nothing out of scope: whatever stands in the
/// frontier afterwards stood there before, or matches the seed's domain
/// identity.
proof fn lemma_handle_link_scope(
    s: CrawlState,
    page: Seq<char>,
    link: Seq<char>,
    seed: Result<UrlPartsView, ErrorView>,
)
    ensures
        forall|u: Seq<char>| #[trigger]
            spec_handle_link(s, page, link, seed).frontier.contains(u) ==> s.frontier.contains(u)
                || spec_filter_url(u, seed) is Some,
{
    match spec_try_process_url(link, page) {
        None => {
        },
        Some(resolved) => {
            let s1 = spec_handle_link(s, page, link, seed);
            if s1.frontier != s.frontier {
                assert forall|u: Seq<char>| #[trigger]
                    s1.frontier.contains(u) implies s.frontier.contains(u) || spec_filter_url(
                    u,
                    seed,
                ) is Some by {
                    let i = choose|i: int| 0 <= i < s1.frontier.len() && s1.frontier[i] == u;
                    if i < s.frontier.len() {
                        assert(s.frontier.contains(u));
                    } else {
                        assert(u == resolved);
                    }
                }
            }
        },
    }
}

/// Handling a page's links enqueues nothing out of scope.
proof fn lemma_handle_links_scope(
    s: CrawlState,
    page: Seq<char>,
    links: Seq<Seq<char>>,
    seed: Result<UrlPartsView, ErrorView>,
)
    ensures
        forall|u: Seq<char>| #[trigger]
            spec_handle_links(s, page, links, seed).frontier.contains(u) ==> s.frontier.contains(u)
                || spec_filter_url(u, seed) is Some,
    decreases links.len(),
{
    if links.len() == 0 {
    } else {
        let s1 = spec_handle_link(s, page, links[0], seed);
        lemma_handle_link_scope(s, page, links[0], seed);
        lemma_handle_links_scope(s1, page, links.drop_first(), seed);
        assert forall|u: Seq<char>| #[trigger]
            spec_handle_links(s, page, links, seed).frontier.contains(u) implies s
            .frontier
            .contains(u) || spec_filter_url(u, seed) is Some by {
            assert(spec_handle_links(s1, page, links.drop_first(), seed).frontier.contains(u));
            assert(s1.frontier.contains(u) || spec_filter_url(u, seed) is Some);
        }
    }
}

/// Law: a worker iteration enqueues only in-scope URLs, for any fetch
/// outcome: whatever stands in the frontier afterwards already stood in it
/// before, or its domain identity matches the seed's.
pub proof fn lemma_crawl_step_scope(
    s: CrawlState,
    fetched: Option<Seq<char>>,
    seed: Result<UrlPartsView, ErrorView>,
)
    ensures
        forall|u: Seq<char>| #[trigger]
            spec_crawl_step(s, fetched, seed).frontier.contains(u) ==> s.frontier.contains(u)
                || spec_filter_url(u, seed) is Some,
{
    if s.frontier.len() > 0 {
        let rest = s.frontier.drop_first();
        assert forall|u: Seq<char>| #[trigger] rest.contains(u) implies s.frontier.contains(
            u,
        ) by {
            let i = choose|i: int| 0 <= i < rest.len() && rest[i] == u;
            assert(s.frontier[i + 1] == u);
        }
        if !spec_has_visited(s.store, s.frontier[0]) && fetched is Some {
            let url = s.frontier[0];
            let content = fetched->0;
            let store1 = spec_visited(spec_add(s.store, url, None), url);
            lemma_handle_links_scope(
                CrawlState { frontier: rest, store: store1 },
                url,
                links_of(content),
                seed,
            );
        }
    }
}

/// Law: every iteration on a nonempty frontier makes progress: either the
/// frontier came out shorter, or the dequeued URL, unvisited before, is
/// visited afterwards. A URL never loses the mark again, so as long as
/// only finitely many distinct URLs can ever be fetched, no run dequeues
/// without end.
pub proof fn lemma_crawl_step_progress(
    s: CrawlState,
    fetched: Option<Seq<char>>,
    seed: Result<UrlPartsView, ErrorView>,
)
    requires
        s.frontier.len() > 0,
    ensures
        ({
            let s1 = spec_crawl_step(s, fetched, seed);
            s1.frontier.len() < s.frontier.len() || (!spec_has_visited(s.store, s.frontier[0])
                && spec_has_visited(s1.store, s.frontier[0]))
        }),
{
    let url = s.frontier[0];
    if !spec_has_visited(s.store, url) && fetched is Some {
        let content = fetched->0;
        let store1 = spec_visited(spec_add(s.store, url, None), url);
        assert(spec_has_visited(store1, url));
        let s2 = CrawlState { frontier: s.frontier.drop_first(), store: store1 };
        lemma_handle_links_monotone(s2, url, links_of(content), seed);
    }
}

/// Law: across any worker iteration, for any fetch outcome, the store only
/// grows: a URL once stored is never dropped, a URL once visited never
/// loses the mark, and a link log is only appended to.
pub proof fn lemma_crawl_step_monotone(
    s: CrawlState,
    fetched: Option<Seq<char>>,
    seed: Result<UrlPartsView, ErrorView>,
)
    ensures
        store_monotone(s.store, spec_crawl_step(s, fetched, seed).store),
{
    lemma_store_monotone_refl(s.store);
    if s.frontier.len() > 0 && !spec_has_visited(s.store, s.frontier[0]) && fetched is Some {
        let url = s.frontier[0];
        let content = fetched->0;
        let s1 = CrawlState { frontier: s.frontier.drop_first(), store: s.store };
        let store1 = spec_visited(spec_add(s.store, url, None), url);
        lemma_spec_add_monotone(s.store, url, None);
        lemma_spec_visited_monotone(spec_add(s.store, url, None), url);
        lemma_store_monotone_trans(s.store, spec_add(s.store, url, None), store1);
        let s2 = CrawlState { frontier: s1.frontier, store: store1 };
        lemma_handle_links_monotone(s2, url, links_of(content), seed);
        lemma_store_monotone_trans(
            s.store,
            store1,
            spec_handle_links(s2, url, links_of(content), seed).store,
        );
    }
}

/// Whether every page entry that is not yet visited has an empty link log.
/// The worker records links only under the page it has just marked
/// visited, so this holds throughout a run.
pub open spec fn unvisited_logs_empty(s: CrawlState) -> bool {
    forall|k: Seq<char>| #[trigger]
        s.store.contains_key(k) && !s.store[k].visited ==> s.store[k].urls_found.len() == 0
}

/// Whether every in-scope link recorded on a visited page has itself been
/// visited or still waits in the frontier.
pub open spec fn links_covered(s: CrawlState, seed: Result<UrlPartsView, ErrorView>) -> bool {
    forall|k: Seq<char>, i: int|
        #![trigger s.store[k].urls_found[i]]
        s.store.contains_key(k) && s.store[k].visited && 0 <= i < s.store[k].urls_found.len()
            && spec_filter_url(s.store[k].urls_found[i], seed) is Some ==> spec_has_visited(
            s.store,
            s.store[k].urls_found[i],
        ) || s.frontier.contains(s.store[k].urls_found[i])
}

/// The invariant a crawl run keeps as long as no fetch fails: no link is
/// recorded under an unvisited page, and every in-scope link recorded so
/// far is visited or pending.
pub open spec fn crawl_invariant(s: CrawlState, seed: Result<UrlPartsView, ErrorView>) -> bool {
    unvisited_logs_empty(s) && links_covered(s, seed)
}

/// A crawl starts in the invariant: the store is empty, whatever is seeded
/// into the frontier.
pub proof fn lemma_crawl_invariant_initial(
    frontier: Seq<Seq<char>>,
    seed: Result<UrlPartsView, ErrorView>,
)
    ensures
        crawl_invariant(
            CrawlState { frontier, store: Map::<Seq<char>, EntryView>::empty() },
            seed,
        ),
{
}

/// Handling one link keeps the invariant, provided the page it was found
/// on is already marked visited.
proof fn lemma_handle_link_keeps_invariant(
    s: CrawlState,
    page: Seq<char>,
    link: Seq<char>,
    seed: Result<UrlPartsView, ErrorView>,
)
    requires
        crawl_invariant(s, seed),
        spec_has_visited(s.store, page),
    ensures
        crawl_invariant(spec_handle_link(s, page, link, seed), seed),
        spec_has_visited(spec_handle_link(s, page, link, seed).store, page),
{
    let s1 = spec_handle_link(s, page, link, seed);
    match spec_try_process_url(link, page) {
        None => {
        },
        Some(resolved) => {
            assert forall|k: Seq<char>| #[trigger]
                s1.store.contains_key(k) && !s1.store[k].visited implies s1.store[k].urls_found.len()
                == 0 by {
                assert(k != page);
            }
            assert forall|k: Seq<char>, i: int|
                #![trigger s1.store[k].urls_found[i]]
                s1.store.contains_key(k) && s1.store[k].visited && 0 <= i < s1.store[
                    k
                ].urls_found.len() && spec_filter_url(s1.store[k].urls_found[i], seed) is Some
                implies spec_has_visited(s1.store, s1.store[k].urls_found[i]) || s1.frontier.contains(
                s1.store[k].urls_found[i],
            ) by {
                let l = s1.store[k].urls_found[i];
                if k == page && i == s.store[page].urls_found.len() {
                    assert(l == resolved);
                    if !spec_has_visited(s1.store, resolved) {
                        assert(s1.frontier == s.frontier.push(resolved));
                        assert(s1.frontier[s.frontier.len() as int] == resolved);
                    }
                } else {
                    assert(s.store.contains_key(k) && s.store[k].visited && 0 <= i < s.store[
                        k
                    ].urls_found.len());
                    assert(s.store[k].urls_found[i] == l);
                    if spec_has_visited(s.store, l) {
                        assert(spec_has_visited(s1.store, l));
                    } else if s.frontier.contains(l) {
                        let j = choose|j: int| 0 <= j < s.frontier.len() && s.frontier[j] == l;
                        assert(s1.frontier[j] == l);
                    }
                }
            }
        },
    }
}

/// Handling a page's links keeps the invariant, provided the page is
/// already marked visited.
proof fn lemma_handle_links_keep_invariant(
    s: CrawlState,
    page: Seq<char>,
    links: Seq<Seq<char>>,
    seed: Result<UrlPartsView, ErrorView>,
)
    requires
        crawl_invariant(s, seed),
        spec_has_visited(s.store, page),
    ensures
        crawl_invariant(spec_handle_links(s, page, links, seed), seed),
    decreases links.len(),
{
    if links.len() == 0 {
    } else {
        let s1 = spec_handle_link(s, page, links[0], seed);
        lemma_handle_link_keeps_invariant(s, page, links[0], seed);
        lemma_handle_links_keep_invariant(s1, page, links.drop_first(), seed);
    }
}

/// What remains of a queue after its head is taken still holds every
/// other item.
proof fn lemma_contains_after_drop_first(q: Seq<Seq<char>>, l: Seq<char>)
    requires
        q.len() > 0,
        q.contains(l),
    ensures
        l == q[0] || q.drop_first().contains(l),
{
    let j = choose|j: int| 0 <= j < q.len() && q[j] == l;
    if j > 0 {
        assert(q.drop_first()[j - 1] == l);
    }
}

/// Law: a worker iteration whose fetch succeeded keeps the crawl
/// invariant: afterwards, every in-scope link recorded on a visited page
/// is still visited or pending.
pub proof fn lemma_crawl_step_keeps_invariant(
    s: CrawlState,
    content: Seq<char>,
    seed: Result<UrlPartsView, ErrorView>,
)
    requires
        crawl_invariant(s, seed),
    ensures
        crawl_invariant(spec_crawl_step(s, Some(content), seed), seed),
{
    if s.frontier.len() == 0 {
    } else {
        let url = s.frontier[0];
        let rest = s.frontier.drop_first();
        if spec_has_visited(s.store, url) {
            let s1 = CrawlState { frontier: rest, store: s.store };
            assert forall|k: Seq<char>, i: int|
                #![trigger s1.store[k].urls_found[i]]
                s1.store.contains_key(k) && s1.store[k].visited && 0 <= i < s1.store[
                    k
                ].urls_found.len() && spec_filter_url(s1.store[k].urls_found[i], seed) is Some
                implies spec_has_visited(s1.store, s1.store[k].urls_found[i])
                || s1.frontier.contains(s1.store[k].urls_found[i]) by {
                let l = s1.store[k].urls_found[i];
                if !spec_has_visited(s.store, l) {
                    assert(s.frontier.contains(l));
                    lemma_contains_after_drop_first(s.frontier, l);
                }
            }
        } else {
            let store1 = spec_visited(spec_add(s.store, url, None), url);
            let s2 = CrawlState { frontier: rest, store: store1 };
            assert(spec_has_visited(store1, url));
            assert forall|k: Seq<char>| #[trigger]
                store1.contains_key(k) && !store1[k].visited implies store1[k].urls_found.len()
                == 0 by {
                if k != url {
                    assert(s.store.contains_key(k) && !s.store[k].visited);
                }
            }
            assert forall|k: Seq<char>, i: int|
                #![trigger s2.store[k].urls_found[i]]
                s2.store.contains_key(k) && s2.store[k].visited && 0 <= i < s2.store[
                    k
                ].urls_found.len() && spec_filter_url(s2.store[k].urls_found[i], seed) is Some
                implies spec_has_visited(s2.store, s2.store[k].urls_found[i]) || s2.frontier.contains(
                s2.store[k].urls_found[i],
            ) by {
                let l = s2.store[k].urls_found[i];
                if k == url {
                    assert(s.store.contains_key(url) ==> s.store[url].urls_found.len() == 0);
                    assert(false);
                } else {
                    assert(s.store.contains_key(k) && s.store[k].visited);
                    if !spec_has_visited(s.store, l) {
                        assert(s.frontier.contains(l));
                        lemma_contains_after_drop_first(s.frontier, l);
                    }
                }
            }
            lemma_handle_links_keep_invariant(s2, url, links_of(content), seed);
        }
    }
}

/// Law: once the frontier has drained under the invariant, every in-scope
/// link ever recorded on a visited page has been visited. On a finite,
/// fully linked site whose fetches all succeed, this is the final state a
/// crawl reaches.
pub proof fn lemma_drained_frontier_covers_links(
    s: CrawlState,
    seed: Result<UrlPartsView, ErrorView>,
)
    requires
        crawl_invariant(s, seed),
        s.frontier.len() == 0,
    ensures
        forall|k: Seq<char>, i: int|
            #![trigger s.store[k].urls_found[i]]
            s.store.contains_key(k) && s.store[k].visited && 0 <= i < s.store[k].urls_found.len()
                && spec_filter_url(s.store[k].urls_found[i], seed) is Some ==> spec_has_visited(
                s.store,
                s.store[k].urls_found[i],
            ),
{
    assert forall|k: Seq<char>, i: int|
        #![trigger s.store[k].urls_found[i]]
        s.store.contains_key(k) && s.store[k].visited && 0 <= i < s.store[k].urls_found.len()
            && spec_filter_url(s.store[k].urls_found[i], seed) is Some implies spec_has_visited(
        s.store,
        s.store[k].urls_found[i],
    ) by {
        assert(!s.frontier.contains(s.store[k].urls_found[i]));
    }
}


} // verus!

