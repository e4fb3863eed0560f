//! Visited store: a map from URL to visit state and the log of links
//! discovered on that URL. Keys are never removed, `visited` only moves
//! from `false` to `true`, and the link log is append-only.

use vstd::prelude::*;

verus! {

/// One record of the store: whether the URL has been fetched, and the
/// ordered log of links discovered while processing it.
#[derive(Debug, PartialEq)]
pub struct DataStoreEntry {
    pub visited: bool,
    pub urls_found: Vec<String>,
}

/// Spec-level image of `DataStoreEntry`.
pub struct EntryView {
    pub visited: bool,
    pub urls_found: Seq<Seq<char>>,
}

impl View for DataStoreEntry {
    type V = EntryView;

    open spec fn view(&self) -> EntryView {
        EntryView { visited: self.visited, urls_found: self.urls_found.deep_view() }
    }
}

/// The record a key gets when it is first added: not yet visited, no links.
pub open spec fn empty_entry() -> EntryView {
    EntryView { visited: false, urls_found: Seq::empty() }
}

/// What `add` does to the store's contents: it makes sure an entry exists
/// for `key`, and, when a discovered link is given, appends it to that
/// entry's log — whatever the entry's visit state.
pub open spec fn spec_add(
    m: Map<Seq<char>, EntryView>,
    key: Seq<char>,
    value: Option<Seq<char>>,
) -> Map<Seq<char>, EntryView> {
    let entry = if m.contains_key(key) {
        m[key]
    } else {
        empty_entry()
    };
    match value {
        Some(v) => m.insert(
            key,
            EntryView { visited: entry.visited, urls_found: entry.urls_found.push(v) },
        ),
        None => m.insert(key, entry),
    }
}

/// What `visited` does to the store's contents: it marks an existing entry
/// visited and leaves a store without the key unchanged.
pub open spec fn spec_visited(m: Map<Seq<char>, EntryView>, key: Seq<char>) -> Map<
    Seq<char>,
    EntryView,
> {
    if m.contains_key(key) {
        m.insert(key, EntryView { visited: true, urls_found: m[key].urls_found })
    } else {
        m
    }
}

/// Whether the store holds `key` and has marked it visited.
pub open spec fn spec_has_visited(m: Map<Seq<char>, EntryView>, key: Seq<char>) -> bool {
    m.contains_key(key) && m[key].visited
}

/// The capability the crawler needs from a visited store. `entries` is the
/// store's abstract contents; every operation is pinned to a transition on
/// it, and none of them can fail: an absent key degrades to a no-op or
/// `false`.
pub trait DataStore {
    spec fn entries(&self) -> Map<Seq<char>, EntryView>;

    fn add(&mut self, key: String, value: Option<String>)
        ensures
            final(self).entries() == spec_add(old(self).entries(), key@, value.deep_view()),
    ;

    fn visited(&mut self, key: &String)
        ensures
            final(self).entries() == spec_visited(old(self).entries(), key@),
    ;

    fn has_visited(&self, key: &String) -> (r: bool)
        ensures
            r == spec_has_visited(self.entries(), key@),
    ;

    fn has_entry(&self, key: &String) -> (r: bool)
        ensures
            r == self.entries().contains_key(key@),
    ;

    fn get<'a>(&'a self, key: &String) -> (r: Option<&'a DataStoreEntry>)
        ensures
            match r {
                Some(entry) => self.entries().contains_key(key@) && entry@ == self.entries()[
                    key@
                ],
                None => !self.entries().contains_key(key@),
            },
    ;
}

/// Law: `add(key, None)` is idempotent. The first call makes an entry —
/// fresh and unvisited when the key was new, untouched otherwise — and
/// every further call changes nothing.
pub proof fn lemma_add_none_idempotent(m: Map<Seq<char>, EntryView>, key: Seq<char>)
    ensures
        spec_add(spec_add(m, key, None), key, None) == spec_add(m, key, None),
        !m.contains_key(key) ==> spec_add(m, key, None)[key] == empty_entry(),
        m.contains_key(key) ==> spec_add(m, key, None)[key] == m[key],
{
    let m1 = spec_add(m, key, None);
    assert(spec_add(m1, key, None) =~= m1);
}

/// Law: a key once marked visited stays visited across every later `add`.
pub proof fn lemma_visited_stable_under_add(
    m: Map<Seq<char>, EntryView>,
    key: Seq<char>,
    other: Seq<char>,
    value: Option<Seq<char>>,
)
    requires
        spec_has_visited(m, key),
    ensures
        spec_has_visited(spec_add(m, other, value), key),
{
}

/// Law: a key once marked visited stays visited across every later
/// `visited`, and marking it again changes nothing; marking an existing key
/// makes `has_visited` answer `true`.
pub proof fn lemma_visited_monotonic(m: Map<Seq<char>, EntryView>, key: Seq<char>, other: Seq<char>)
    ensures
        spec_has_visited(m, key) ==> spec_has_visited(spec_visited(m, other), key),
        m.contains_key(key) ==> spec_has_visited(spec_visited(m, key), key),
        spec_has_visited(m, key) ==> spec_visited(m, key) == m,
{
    if spec_has_visited(m, key) {
        assert(spec_visited(m, key) =~= m);
    }
}

/// Law: `add(src, Some(dst))` appends `dst` to `src`'s log, whatever the
/// link's domain scope and whatever either key's visit state.
pub proof fn lemma_edge_recording_unconditional(
    m: Map<Seq<char>, EntryView>,
    src: Seq<char>,
    dst: Seq<char>,
)
    ensures
        spec_add(m, src, Some(dst)).contains_key(src),
        spec_add(m, src, Some(dst))[src].urls_found == (if m.contains_key(src) {
            m[src].urls_found
        } else {
            Seq::<Seq<char>>::empty()
        }).push(dst),
        spec_add(m, src, Some(dst))[src].visited == spec_has_visited(m, src),
{
}

/// The in-memory store: an association vector with pairwise-distinct keys.
#[derive(Debug, PartialEq)]
pub struct Store {
    data: Vec<(String, DataStoreEntry)>,
}

/// The map image of an association vector: later pairs win, which matches
/// any vector whose keys are pairwise distinct.
spec fn entries_map(s: Seq<(String, DataStoreEntry)>) -> Map<Seq<char>, EntryView>
    decreases s.len(),
{
    if s.len() == 0 {
        Map::empty()
    } else {
        entries_map(s.drop_last()).insert(s.last().0@, s.last().1@)
    }
}

/// Whether an association vector's keys are pairwise distinct.
spec fn keys_distinct(s: Seq<(String, DataStoreEntry)>) -> bool {
    forall|i: int, j: int|
        0 <= i < j < s.len() ==> (#[trigger] s[i]).0@ != (#[trigger] s[j]).0@
}

/// A key is in the map image exactly when some pair carries it.
proof fn lemma_entries_map_contains(s: Seq<(String, DataStoreEntry)>, k: Seq<char>)
    ensures
        entries_map(s).contains_key(k) == exists|i: int| 0 <= i < s.len() && (#[trigger] s[i]).0@ == k,
    decreases s.len(),
{
    if s.len() == 0 {
    } else {
        lemma_entries_map_contains(s.drop_last(), k);
        if s.last().0@ == k {
            assert((s[s.len() - 1]).0@ == k);
        } else {
            if exists|i: int| 0 <= i < s.len() && (#[trigger] s[i]).0@ == k {
                let i = choose|i: int| 0 <= i < s.len() && (#[trigger] s[i]).0@ == k;
                assert(i < s.len() - 1);
                assert((s.drop_last()[i]).0@ == k);
            }
        }
    }
}

/// With distinct keys, the map image sends each pair's key to its entry.
proof fn lemma_entries_map_value(s: Seq<(String, DataStoreEntry)>, i: int)
    requires
        keys_distinct(s),
        0 <= i < s.len(),
    ensures
        entries_map(s)[s[i].0@] == s[i].1@,
    decreases s.len(),
{
    if i == s.len() - 1 {
    } else {
        assert(keys_distinct(s.drop_last()));
        lemma_entries_map_value(s.drop_last(), i);
        assert(s[i].0@ != s.last().0@);
    }
}

/// Appending a pair inserts its key.
proof fn lemma_entries_map_push(s: Seq<(String, DataStoreEntry)>, pair: (String, DataStoreEntry))
    ensures
        entries_map(s.push(pair)) == entries_map(s).insert(pair.0@, pair.1@),
{
    assert(s.push(pair).drop_last() =~= s);
    assert(s.push(pair).last() == pair);
}

/// Pushing onto a vector of strings pushes the string's view onto the
/// vector's deep view.
proof fn lemma_deep_view_push(v: Vec<String>, w: Vec<String>, x: String)
    requires
        w@ == v@.push(x),
    ensures
        w.deep_view() =~= v.deep_view().push(x@),
{
}

/// An empty vector of strings has an empty deep view.
proof fn lemma_deep_view_empty(v: Vec<String>)
    requires
        v@.len() == 0,
    ensures
        v.deep_view() =~= Seq::<Seq<char>>::empty(),
{
}

/// Replacing the pair that carries a key re-inserts that key.
proof fn lemma_entries_map_update(
    s: Seq<(String, DataStoreEntry)>,
    i: int,
    pair: (String, DataStoreEntry),
)
    requires
        keys_distinct(s),
        0 <= i < s.len(),
        s[i].0@ == pair.0@,
    ensures
        entries_map(s.update(i, pair)) == entries_map(s).insert(pair.0@, pair.1@),
    decreases s.len(),
{
    if i == s.len() - 1 {
        assert(s.update(i, pair).drop_last() =~= s.drop_last());
        assert(entries_map(s.drop_last()).insert(s.last().0@, s.last().1@).insert(
            pair.0@,
            pair.1@,
        ) =~= entries_map(s.drop_last()).insert(pair.0@, pair.1@));
    } else {
        assert(keys_distinct(s.drop_last()));
        lemma_entries_map_update(s.drop_last(), i, pair);
        assert(s.update(i, pair).drop_last() =~= s.drop_last().update(i, pair));
        assert(s.update(i, pair).last() == s.last());
        assert(s.last().0@ != pair.0@);
        assert(entries_map(s.drop_last()).insert(pair.0@, pair.1@).insert(
            s.last().0@,
            s.last().1@,
        ) =~= entries_map(s.drop_last()).insert(s.last().0@, s.last().1@).insert(pair.0@, pair.1@));
    }
}

impl Store {
    #[verifier::type_invariant]
    spec fn wf(&self) -> bool {
        keys_distinct(self.data@)
    }

    /// Makes an empty store.
    pub fn new() -> (r: Store)
        ensures
            r.entries() == Map::<Seq<char>, EntryView>::empty(),
    {
        Store { data: Vec::new() }
    }

    /// The index of the pair carrying `key`, if any.
    fn find(&self, key: &String) -> (r: Option<usize>)
        ensures
            match r {
                Some(i) => i < self.data@.len() && self.data@[i as int].0@ == key@,
                None => forall|i: int|
                    0 <= i < self.data@.len() ==> (#[trigger] self.data@[i]).0@ != key@,
            },
    {
        let mut i: usize = 0;
        while i < self.data.len()
            invariant
                i <= self.data@.len(),
                forall|j: int| 0 <= j < i ==> (#[trigger] self.data@[j]).0@ != key@,
            decreases self.data@.len() - i,
        {
            if self.data[i].0 == *key {
                return Some(i);
            }
            i = i + 1;
        }
        None
    }
}

impl Default for Store {
    fn default() -> (r: Store)
        ensures
            r.entries() == Map::<Seq<char>, EntryView>::empty(),
    {
        Store::new()
    }
}

impl DataStore for Store {
    closed spec fn entries(&self) -> Map<Seq<char>, EntryView> {
        entries_map(self.data@)
    }

    fn add(&mut self, key: String, value: Option<String>) {
        proof {
            use_type_invariant(&*self);
        }
        let ghost m = self.entries();
        let ghost val_view = value.deep_view();
        let found = self.find(&key);
        let mut data: Vec<(String, DataStoreEntry)> = Vec::new();
        std::mem::swap(&mut self.data, &mut data);
        let ghost orig = data@;
        match found {
            Some(i) => {
                proof {
                    lemma_entries_map_contains(orig, key@);
                    lemma_entries_map_value(orig, i as int);
                }
                if let Some(v) = value {
                    let (found_key, mut entry) = data.remove(i);
                    let ghost entry0 = entry;
                    let ghost vv = v;
                    entry.urls_found.push(v);
                    proof {
                        lemma_deep_view_push(entry0.urls_found, entry.urls_found, vv);
                    }
                    let ghost pair2 = (found_key, entry);
                    data.insert(i, (found_key, entry));
                    proof {
                        assert(data@ =~= orig.update(i as int, pair2));
                        lemma_entries_map_update(orig, i as int, pair2);
                        assert(keys_distinct(data@));
                        assert(entries_map(data@) =~= spec_add(m, key@, val_view));
                    }
                } else {
                    proof {
                        assert(entries_map(data@) =~= spec_add(m, key@, val_view));
                    }
                }
            },
            None => {
                proof {
                    lemma_entries_map_contains(orig, key@);
                }
                let mut links: Vec<String> = Vec::new();
                let ghost links0 = links;
                if let Some(v) = value {
                    let ghost vv = v;
                    links.push(v);
                    proof {
                        lemma_deep_view_push(links0, links, vv);
                    }
                }
                proof {
                    lemma_deep_view_empty(links0);
                }
                let entry = DataStoreEntry { visited: false, urls_found: links };
                let ghost pair2 = (key, entry);
                data.push((key, entry));
                proof {
                    lemma_entries_map_push(orig, pair2);
                    assert(data@ =~= orig.push(pair2));
                    assert(keys_distinct(data@));
                    assert(entries_map(data@) =~= spec_add(m, key@, val_view));
                }
            },
        }
        self.data = data;
    }

    fn visited(&mut self, key: &String) {
        proof {
            use_type_invariant(&*self);
        }
        let ghost m = self.entries();
        let found = self.find(key);
        if let Some(i) = found {
            let mut data: Vec<(String, DataStoreEntry)> = Vec::new();
            std::mem::swap(&mut self.data, &mut data);
            let ghost orig = data@;
            proof {
                lemma_entries_map_contains(orig, key@);
                lemma_entries_map_value(orig, i as int);
            }
            let (found_key, mut entry) = data.remove(i);
            entry.visited = true;
            let ghost pair2 = (found_key, entry);
            data.insert(i, (found_key, entry));
            proof {
                assert(data@ =~= orig.update(i as int, pair2));
                lemma_entries_map_update(orig, i as int, pair2);
                assert(keys_distinct(data@));
                assert(entries_map(data@) =~= spec_visited(m, key@));
            }
            self.data = data;
        } else {
            proof {
                lemma_entries_map_contains(self.data@, key@);
                assert(self.entries() =~= spec_visited(m, key@));
            }
        }
    }

    fn has_visited(&self, key: &String) -> (r: bool) {
        proof {
            use_type_invariant(self);
        }
        let found = self.find(key);
        proof {
            lemma_entries_map_contains(self.data@, key@);
        }
        match found {
            Some(i) => {
                proof {
                    lemma_entries_map_value(self.data@, i as int);
                }
                self.data[i].1.visited
            },
            None => false,
        }
    }

    fn has_entry(&self, key: &String) -> (r: bool) {
        let found = self.find(key);
        proof {
            lemma_entries_map_contains(self.data@, key@);
        }
        found.is_some()
    }

    fn get<'a>(&'a self, key: &String) -> (r: Option<&'a DataStoreEntry>) {
        proof {
            use_type_invariant(self);
        }
        let found = self.find(key);
        proof {
            lemma_entries_map_contains(self.data@, key@);
        }
        match found {
            Some(i) => {
                proof {
                    lemma_entries_map_value(self.data@, i as int);
                }
                Some(&self.data[i].1)
            },
            None => None,
        }
    }
}

} // verus!
