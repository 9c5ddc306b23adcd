//! Lazy discovery and memoization of HTTP redirect chains.
//!
//! For an HTTP(S) URL the resolver walks `location` headers obtained from an
//! injected header provider, abandoning any chain that runs past eleven
//! hops, and memoizes the whole visited path once — and only once — a chain
//! terminates. A URL that sends no `location` header is recorded under a
//! terminal marker so later queries short-circuit. A lockfile may seed the
//! table at construction time.

use vstd::prelude::*;
use crate::url_bytes::bytes_eq;
use crate::url_bytes::clone_bytes;
use crate::url_bytes::spec_is_http_or_https;
use crate::url_bytes::is_http_or_https;
use crate::url_parse::spec_resolve_import;
use crate::url_parse::spec_url_parse;
use crate::url_parse::resolve_import;

verus! {

broadcast use crate::url_bytes::lemma_bytes_deep_view;

/// Response headers observed at one hop: name-value pairs, first match wins.
pub type Headers = Vec<(Vec<u8>, Vec<u8>)>;

/// The bytes of `"location"`.
pub open spec fn location_key() -> Seq<u8> {
    seq![108u8, 111u8, 99u8, 97u8, 116u8, 105u8, 111u8, 110u8]
}

/// The value under the first pair whose name is `k`, if any.
pub open spec fn spec_header_lookup(h: Seq<(Seq<u8>, Seq<u8>)>, k: Seq<u8>) -> Option<Seq<u8>>
    decreases h.len(),
{
    if h.len() == 0 {
        None
    } else if h[0].0 == k {
        Some(h[0].1)
    } else {
        spec_header_lookup(h.drop_first(), k)
    }
}

/// Look a header up by name.
pub fn header_lookup(h: &Headers, k: &[u8]) -> (r: Option<Vec<u8>>)
    ensures
        r.deep_view() == spec_header_lookup(h.deep_view(), k@),
{
    let mut i: usize = 0;
    assert(h.deep_view().skip(0) =~= h.deep_view());
    while i < h.len()
        invariant
            i <= h.len(),
            spec_header_lookup(h.deep_view(), k@)
                == spec_header_lookup(h.deep_view().skip(i as int), k@),
        decreases h.len() - i,
    {
        let ghost pre = h.deep_view().skip(i as int);
        assert(pre[0] == (h@[i as int].0@, h@[i as int].1@));
        if bytes_eq(h[i].0.as_slice(), k) {
            return Some(clone_bytes(&h[i].1));
        }
        assert(pre.drop_first() =~= h.deep_view().skip(i + 1));
        i += 1;
    }
    assert(h.deep_view().skip(h@.len() as int).len() == 0);
    None
}

/// One memoized hop of a redirect chain.
#[derive(Debug, Clone, PartialEq, Eq)]
pub struct RedirectEntry {
    /// The response headers observed at this hop; never mutated after insert.
    pub headers: Headers,
    /// The immediate next hop, as parsed from `location`.
    pub target: Vec<u8>,
    /// The terminal URL of the chain this entry belongs to, filled in only
    /// when the chain terminates.
    pub destination: Option<Vec<u8>>,
}

/// The mathematical shadow of a `RedirectEntry`.
pub struct EntryView {
    pub headers: Seq<(Seq<u8>, Seq<u8>)>,
    pub target: Seq<u8>,
    pub destination: Option<Seq<u8>>,
}

impl View for RedirectEntry {
    type V = EntryView;

    open spec fn view(&self) -> EntryView {
        EntryView {
            headers: self.headers.deep_view(),
            target: self.target@,
            destination: self.destination.deep_view(),
        }
    }
}

/// A table slot: an entry for a URL that redirects, or the terminal marker
/// (`None`) for a URL known to redirect no further.
pub open spec fn slot_view(s: Option<RedirectEntry>) -> Option<EntryView> {
    match s {
        Some(e) => Some(e@),
        None => None,
    }
}

/// The injected header provider: a pure function from URL to optional header
/// map, held as a finite table. A URL outside the table cannot be served.
pub struct HeaderProvider {
    pub entries: Vec<(Vec<u8>, Headers)>,
}

/// The headers the provider serves for a URL, first match winning.
pub open spec fn spec_provider_lookup(
    p: Seq<(Seq<u8>, Seq<(Seq<u8>, Seq<u8>)>)>,
    u: Seq<u8>,
) -> Option<Seq<(Seq<u8>, Seq<u8>)>>
    decreases p.len(),
{
    if p.len() == 0 {
        None
    } else if p[0].0 == u {
        Some(p[0].1)
    } else {
        spec_provider_lookup(p.drop_first(), u)
    }
}

impl View for HeaderProvider {
    type V = Seq<(Seq<u8>, Seq<(Seq<u8>, Seq<u8>)>)>;

    open spec fn view(&self) -> Seq<(Seq<u8>, Seq<(Seq<u8>, Seq<u8>)>)> {
        self.entries.deep_view()
    }
}

impl HeaderProvider {
    /// A provider serving exactly these URL-to-headers pairs.
    pub fn new(entries: Vec<(Vec<u8>, Headers)>) -> (r: HeaderProvider)
        ensures
            r@ == entries.deep_view(),
    {
        HeaderProvider { entries }
    }

    /// The headers for a URL, or nothing when the provider cannot serve it.
    pub fn get(&self, u: &Vec<u8>) -> (r: Option<Headers>)
        ensures
            r.deep_view() == spec_provider_lookup(self@, u@),
    {
        let mut i: usize = 0;
        assert(self@.skip(0) =~= self@);
        while i < self.entries.len()
            invariant
                i <= self.entries.len(),
                spec_provider_lookup(self@, u@)
                    == spec_provider_lookup(self@.skip(i as int), u@),
            decreases self.entries.len() - i,
        {
            let ghost pre = self@.skip(i as int);
            assert(pre[0] == (
                self.entries@[i as int].0@,
                self.entries@[i as int].1.deep_view(),
            ));
            if bytes_eq(self.entries[i].0.as_slice(), u.as_slice()) {
                return Some(clone_headers(&self.entries[i].1));
            }
            assert(pre.drop_first() =~= self@.skip(i + 1));
            i += 1;
        }
        assert(self@.skip(self@.len() as int).len() == 0);
        None
    }
}

/// The memoized redirect table is dashmap's concurrent map, which tolerates
/// readers and inserters from many threads; under the language server's
/// single-threaded executor contention is negligible, and a race between two
/// probers of one URL is benign since both compute the same chain.
#[verifier::external_type_specification]
#[verifier::external_body]
#[verifier::reject_recursive_types(K)]
#[verifier::reject_recursive_types(V)]
#[verifier::reject_recursive_types(S)]
pub struct ExDashMap<K, V, S>(dashmap::DashMap<K, V, S>);

/// The table from a URL to either a redirect entry or the terminal marker;
/// a URL outside the table has not been probed yet.
pub type RedirectTable = dashmap::DashMap<Vec<u8>, Option<RedirectEntry>>;

/// What the redirect table holds, as a map from the URL bytes to the slot
/// stored under them.
pub uninterp spec fn table_contents(t: RedirectTable) -> Map<Seq<u8>, Option<EntryView>>;

/// Relies on `dashmap::DashMap::new`: the new map is empty.
#[verifier::external_body]
fn table_new() -> (t: RedirectTable)
    ensures
        table_contents(t).dom() == Set::<Seq<u8>>::empty(),
{
    dashmap::DashMap::new()
}

/// Relies on `dashmap::DashMap::get`: the value stored under the key, cloned
/// out of the read guard.
#[verifier::external_body]
fn table_get(t: &RedirectTable, k: &Vec<u8>) -> (r: Option<Option<RedirectEntry>>)
    ensures
        match r {
            Some(slot) => table_contents(*t).dom().contains(k@)
                && table_contents(*t)[k@] == slot_view(slot),
            None => !table_contents(*t).dom().contains(k@),
        },
{
    t.get(k).map(|guard| guard.value().clone())
}

/// Relies on `dashmap::DashMap::insert`: maps the key to the value and keeps
/// every other pair.
#[verifier::external_body]
fn table_insert(t: &mut RedirectTable, k: Vec<u8>, v: Option<RedirectEntry>)
    ensures
        table_contents(*final(t)) == table_contents(*old(t)).insert(k@, slot_view(v)),
{
    t.insert(k, v);
}

/// Relies on `dashmap::DashMap::clone`: the clone holds the same pairs and
/// is independent of the original.
#[verifier::external_body]
fn table_clone(t: &RedirectTable) -> (r: RedirectTable)
    ensures
        table_contents(r) == table_contents(*t),
{
    t.clone()
}

/// A slot that may be kept across a cache refresh: the terminal marker, or an
/// entry whose chain has terminated. An entry still waiting for its
/// destination is a stale negative and must be re-probed.
pub open spec fn spec_slot_settled(s: Option<EntryView>) -> bool {
    match s {
        None => true,
        Some(e) => e.destination is Some,
    }
}

/// Executable form of `spec_slot_settled`.
pub fn slot_is_settled(s: &Option<RedirectEntry>) -> (r: bool)
    ensures
        r == spec_slot_settled(slot_view(*s)),
{
    match s {
        None => true,
        Some(e) => e.destination.is_some(),
    }
}

/// Relies on `dashmap::DashMap::retain`: keeps exactly the pairs the
/// predicate accepts; the predicate keeps settled slots.
#[verifier::external_body]
fn table_retain_settled(t: &mut RedirectTable)
    ensures
        table_contents(*final(t)) == table_contents(*old(t)).restrict(
            table_contents(*old(t)).dom().filter(
                |k: Seq<u8>| spec_slot_settled(table_contents(*old(t))[k]),
            ),
        ),
{
    t.retain(|_, v| slot_is_settled(v));
}

/// The outcome of one memoization walk: the destination when the chain
/// terminates, the hops visited on the way, and whether the terminus was
/// discovered fresh rather than found already memoized.
pub struct WalkResult {
    pub destination: Option<Seq<u8>>,
    pub visited: Seq<(Seq<u8>, Seq<(Seq<u8>, Seq<u8>)>, Seq<u8>)>,
    pub fresh: bool,
}

/// The walk from `current`, `hops` hops into a resolution that started at
/// `orig`: stop at a memoized slot or at a URL without a `location` header;
/// follow `location` (parsed against the original input) otherwise, giving
/// up beyond the hop bound. The table is consulted before the provider, so a
/// memoized URL is never re-probed.
pub open spec fn spec_walk(
    t: Map<Seq<u8>, Option<EntryView>>,
    p: Seq<(Seq<u8>, Seq<(Seq<u8>, Seq<u8>)>)>,
    orig: Seq<u8>,
    current: Seq<u8>,
    hops: nat,
) -> WalkResult
    decreases 11 - hops,
{
    if t.dom().contains(current) {
        WalkResult {
            destination: match t[current] {
                Some(e) => e.destination,
                None => Some(current),
            },
            visited: Seq::empty(),
            fresh: false,
        }
    } else {
        match spec_provider_lookup(p, current) {
            None => WalkResult { destination: None, visited: Seq::empty(), fresh: false },
            Some(h) => match spec_header_lookup(h, location_key()) {
                None => WalkResult {
                    destination: Some(current),
                    visited: Seq::empty(),
                    fresh: true,
                },
                Some(loc) => if hops > 10 {
                    WalkResult { destination: None, visited: Seq::empty(), fresh: false }
                } else {
                    match spec_resolve_import(loc, orig) {
                        None => WalkResult {
                            destination: None,
                            visited: Seq::empty(),
                            fresh: false,
                        },
                        Some(tgt) => {
                            let rest = spec_walk(t, p, orig, tgt, hops + 1);
                            WalkResult {
                                destination: rest.destination,
                                visited: seq![(current, h, tgt)] + rest.visited,
                                fresh: rest.fresh,
                            }
                        },
                    }
                },
            },
        }
    }
}

/// The entry memoized for one visited hop of a chain that terminated at `d`.
pub open spec fn visited_entry(
    v: (Seq<u8>, Seq<(Seq<u8>, Seq<u8>)>, Seq<u8>),
    d: Seq<u8>,
) -> Option<EntryView> {
    Some(EntryView { headers: v.1, target: v.2, destination: Some(d) })
}

/// The table extended by the visited hops of a chain that terminated at `d`,
/// in visit order.
pub open spec fn add_visited(
    t: Map<Seq<u8>, Option<EntryView>>,
    vis: Seq<(Seq<u8>, Seq<(Seq<u8>, Seq<u8>)>, Seq<u8>)>,
    d: Seq<u8>,
) -> Map<Seq<u8>, Option<EntryView>>
    decreases vis.len(),
{
    if vis.len() == 0 {
        t
    } else {
        add_visited(t.insert(vis[0].0, visited_entry(vis[0], d)), vis.drop_first(), d)
    }
}

/// The table right before write-back: a fresh terminus gains its terminal
/// marker, everything else is untouched.
pub open spec fn spec_pre_backfill(
    t: Map<Seq<u8>, Option<EntryView>>,
    w: WalkResult,
) -> Map<Seq<u8>, Option<EntryView>> {
    if w.fresh {
        match w.destination {
            Some(d) => t.insert(d, None),
            None => t,
        }
    } else {
        t
    }
}

/// The table after a resolution walk from `u`: unchanged when the walk
/// fails, else extended by the terminal marker (for a fresh terminus) and
/// the visited entries, each carrying the destination.
pub open spec fn spec_table_after(
    t: Map<Seq<u8>, Option<EntryView>>,
    p: Seq<(Seq<u8>, Seq<(Seq<u8>, Seq<u8>)>)>,
    u: Seq<u8>,
) -> Map<Seq<u8>, Option<EntryView>> {
    let w = spec_walk(t, p, u, u, 0);
    match w.destination {
        None => t,
        Some(d) => add_visited(spec_pre_backfill(t, w), w.visited, d),
    }
}

/// Appending one hop to the visited sequence appends one insert.
proof fn lemma_add_visited_snoc(
    t: Map<Seq<u8>, Option<EntryView>>,
    s: Seq<(Seq<u8>, Seq<(Seq<u8>, Seq<u8>)>, Seq<u8>)>,
    x: (Seq<u8>, Seq<(Seq<u8>, Seq<u8>)>, Seq<u8>),
    d: Seq<u8>,
)
    ensures
        add_visited(t, s.push(x), d) == add_visited(t, s, d).insert(x.0, visited_entry(x, d)),
    decreases s.len(),
{
    if s.len() == 0 {
        let t2 = t.insert(x.0, visited_entry(x, d));
        assert(s.push(x)[0] == x);
        assert(add_visited(t, s.push(x), d) == add_visited(t2, s.push(x).drop_first(), d));
        assert(s.push(x).drop_first() =~= Seq::<
            (Seq<u8>, Seq<(Seq<u8>, Seq<u8>)>, Seq<u8>),
        >::empty());
        assert(add_visited(t2, Seq::empty(), d) == t2);
        assert(add_visited(t, s, d) == t);
    } else {
        let t2 = t.insert(s[0].0, visited_entry(s[0], d));
        assert(s.push(x)[0] == s[0]);
        assert(add_visited(t, s.push(x), d) == add_visited(t2, s.push(x).drop_first(), d));
        assert(s.push(x).drop_first() =~= s.drop_first().push(x));
        lemma_add_visited_snoc(t2, s.drop_first(), x, d);
        assert(add_visited(t, s, d) == add_visited(t2, s.drop_first(), d));
    }
}

/// Write-back keeps the table finite.
proof fn lemma_add_visited_finite(
    t: Map<Seq<u8>, Option<EntryView>>,
    vis: Seq<(Seq<u8>, Seq<(Seq<u8>, Seq<u8>)>, Seq<u8>)>,
    d: Seq<u8>,
)
    requires
        t.dom().finite(),
    ensures
        add_visited(t, vis, d).dom().finite(),
    decreases vis.len(),
{
    if vis.len() != 0 {
        lemma_add_visited_finite(t.insert(vis[0].0, visited_entry(vis[0], d)), vis.drop_first(), d);
    }
}

/// The redirect resolver: the injected header provider and the memoized
/// table, possibly seeded from a lockfile.
pub struct RedirectResolver {
    provider: HeaderProvider,
    entries: RedirectTable,
}

/// The table a lockfile seeds: for each pair whose two URLs parse, a
/// redirect entry for the source pointing at the destination, and a terminal
/// marker for the destination. A pair with an invalid URL is dropped.
pub open spec fn spec_seeded(pairs: Seq<(Seq<u8>, Seq<u8>)>) -> Map<Seq<u8>, Option<EntryView>>
    decreases pairs.len(),
{
    if pairs.len() == 0 {
        Map::empty()
    } else {
        let t = spec_seeded(pairs.drop_last());
        match (spec_url_parse(pairs.last().0), spec_url_parse(pairs.last().1)) {
            (Some(s), Some(d)) => t.insert(
                s,
                Some(EntryView { headers: Seq::empty(), target: d, destination: Some(d) }),
            ).insert(d, None),
            _ => t,
        }
    }
}

impl RedirectResolver {
    /// The header provider's view.
    pub closed spec fn provider_view(&self) -> Seq<(Seq<u8>, Seq<(Seq<u8>, Seq<u8>)>)> {
        self.provider@
    }

    /// The memoized table's view.
    pub closed spec fn table(&self) -> Map<Seq<u8>, Option<EntryView>> {
        table_contents(self.entries)
    }

    /// The table is finite; true of every constructed resolver.
    pub open spec fn table_finite(&self) -> bool {
        self.table().dom().finite()
    }

    /// A resolver over the given header provider, its table seeded from the
    /// lockfile's redirects section.
    pub fn new(provider: HeaderProvider, lockfile_redirects: &Vec<(Vec<u8>, Vec<u8>)>) -> (r:
        RedirectResolver)
        ensures
            r.provider_view() == provider@,
            r.table() == spec_seeded(lockfile_redirects.deep_view()),
            r.table_finite(),
    {
        let mut entries = table_new();
        let ghost all = lockfile_redirects.deep_view();
        let mut i: usize = 0;
        assert(all.subrange(0, 0) =~= Seq::empty());
        assert(spec_seeded(all.subrange(0, 0)) =~= Map::empty());
        while i < lockfile_redirects.len()
            invariant
                i <= lockfile_redirects.len(),
                all == lockfile_redirects.deep_view(),
                table_contents(entries) == spec_seeded(all.subrange(0, i as int)),
                table_contents(entries).dom().finite(),
            decreases lockfile_redirects.len() - i,
        {
            let ghost pre = all.subrange(0, i as int);
            let source = &lockfile_redirects[i].0;
            let dest = &lockfile_redirects[i].1;
            match (crate::url_parse::url_parse(source), crate::url_parse::url_parse(dest)) {
                (
                    crate::url_parse::ParseOutcome::Parsed(s),
                    crate::url_parse::ParseOutcome::Parsed(d),
                ) => {
                    let entry = RedirectEntry {
                        headers: Vec::new(),
                        target: clone_bytes(&d),
                        destination: Some(clone_bytes(&d)),
                    };
                    assert(entry@ == EntryView {
                        headers: Seq::<(Seq<u8>, Seq<u8>)>::empty(),
                        target: d@,
                        destination: Some(d@),
                    }) by {
                        assert(entry.headers.deep_view() =~= Seq::<(Seq<u8>, Seq<u8>)>::empty());
                    }
                    table_insert(&mut entries, s, Some(entry));
                    table_insert(&mut entries, d, None);
                },
                _ => {},
            }
            proof {
                assert(all.subrange(0, i + 1).drop_last() =~= pre);
                assert(all.subrange(0, i + 1).last() == (source@, dest@));
            }
            i += 1;
        }
        assert(all.subrange(0, lockfile_redirects.len() as int) =~= all);
        RedirectResolver { provider, entries }
    }

    /// Resolve a URL through the memoized redirect table, probing the header
    /// provider for unvisited URLs and memoizing the walked chain when — and
    /// only when — it terminates. A URL of any scheme other than HTTP(S)
    /// passes through unchanged.
    pub fn resolve(&mut self, specifier: &Vec<u8>) -> (r: Option<Vec<u8>>)
        ensures
            final(self).provider_view() == old(self).provider_view(),
            !spec_is_http_or_https(specifier@) ==> r.deep_view() == Some(specifier@)
                && final(self).table() == old(self).table(),
            spec_is_http_or_https(specifier@) ==> r.deep_view() == spec_walk(
                old(self).table(),
                old(self).provider_view(),
                specifier@,
                specifier@,
                0,
            ).destination && final(self).table() == spec_table_after(
                old(self).table(),
                old(self).provider_view(),
                specifier@,
            ),
            old(self).table_finite() ==> final(self).table_finite(),
    {
        if !is_http_or_https(specifier) {
            return Some(clone_bytes(specifier));
        }
        let ghost t0 = self.table();
        let ghost p = self.provider_view();
        let ghost orig = specifier@;
        let ghost w0 = spec_walk(t0, p, orig, orig, 0);
        let location: [u8; 8] = [108u8, 111u8, 99u8, 97u8, 116u8, 105u8, 111u8, 110u8];
        proof {
            assert(location@ =~= location_key());
        }
        let mut current: Vec<u8> = clone_bytes(specifier);
        let mut chain: Vec<(Vec<u8>, Headers, Vec<u8>)> = Vec::new();
        let mut destination: Option<Vec<u8>> = None;
        let mut done: bool = false;
        assert(chain.deep_view() + spec_walk(t0, p, orig, current@, 0).visited =~= spec_walk(
            t0,
            p,
            orig,
            current@,
            0,
        ).visited);
        while !done
            invariant
                self.provider_view() == p,
                t0.dom().finite() ==> self.table_finite(),
                orig == specifier@,
                location@ == location_key(),
                w0 == spec_walk(t0, p, orig, orig, 0),
                !done ==> {
                    &&& chain@.len() <= 11
                    &&& self.table() == t0
                    &&& w0.destination == spec_walk(t0, p, orig, current@, chain@.len() as nat).destination
                    &&& w0.visited == chain.deep_view() + spec_walk(
                        t0,
                        p,
                        orig,
                        current@,
                        chain@.len() as nat,
                    ).visited
                    &&& w0.fresh == spec_walk(t0, p, orig, current@, chain@.len() as nat).fresh
                },
                done ==> {
                    &&& destination.deep_view() == w0.destination
                    &&& chain.deep_view() == w0.visited
                    &&& self.table() == spec_pre_backfill(t0, w0)
                },
            decreases (if done { 0int } else { 12 - chain@.len() }),
        {
            let ghost hops = chain@.len() as nat;
            let ghost wcur = spec_walk(t0, p, orig, current@, hops);
            match table_get(&self.entries, &current) {
                Some(slot) => {
                    match slot {
                        Some(entry) => {
                            assert(wcur.destination == entry@.destination);
                            destination = entry.destination;
                        },
                        None => {
                            destination = Some(clone_bytes(&current));
                        },
                    }
                    done = true;
                    proof {
                        assert(chain.deep_view() + wcur.visited =~= chain.deep_view());
                        assert(spec_pre_backfill(t0, w0) =~= t0);
                    }
                },
                None => {
                    match self.provider.get(&current) {
                        None => {
                            destination = None;
                            done = true;
                            proof {
                                assert(chain.deep_view() + wcur.visited =~= chain.deep_view());
                                assert(spec_pre_backfill(t0, w0) =~= t0);
                            }
                        },
                        Some(headers) => {
                            match header_lookup(&headers, location.as_slice()) {
                                Some(loc) => {
                                    if chain.len() > 10 {
                                        destination = None;
                                        done = true;
                                        proof {
                                            assert(chain.deep_view() + wcur.visited
                                                =~= chain.deep_view());
                                            assert(spec_pre_backfill(t0, w0) =~= t0);
                                        }
                                    } else {
                                        match resolve_import(&loc, specifier) {
                                            None => {
                                                destination = None;
                                                done = true;
                                                proof {
                                                    assert(chain.deep_view() + wcur.visited
                                                        =~= chain.deep_view());
                                                    assert(spec_pre_backfill(t0, w0) =~= t0);
                                                }
                                            },
                                            Some(target) => {
                                                let next = clone_bytes(&target);
                                                let ghost curv = current@;
                                                let ghost hview = headers.deep_view();
                                                let ghost chain0 = chain.deep_view();
                                                let ghost rest = spec_walk(
                                                    t0,
                                                    p,
                                                    orig,
                                                    next@,
                                                    hops + 1,
                                                );
                                                proof {
                                                    assert(wcur.destination == rest.destination);
                                                    assert(wcur.visited == seq![(curv, hview, next@)]
                                                        + rest.visited);
                                                    assert(wcur.fresh == rest.fresh);
                                                }
                                                chain.push((current, headers, target));
                                                proof {
                                                    assert(chain.deep_view() =~~= chain0.push(
                                                        (curv, hview, next@),
                                                    ));
                                                    assert(chain0.push((curv, hview, next@))
                                                        + rest.visited =~= chain0 + wcur.visited);
                                                }
                                                current = next;
                                            },
                                        }
                                    }
                                },
                                None => {
                                    let marker_key = clone_bytes(&current);
                                    table_insert(&mut self.entries, marker_key, None);
                                    destination = Some(clone_bytes(&current));
                                    done = true;
                                    proof {
                                        assert(chain.deep_view() + wcur.visited
                                            =~= chain.deep_view());
                                    }
                                },
                            }
                        },
                    }
                },
            }
        }
        match destination {
            None => {
                assert(self.table() == spec_table_after(t0, p, orig)) by {
                    assert(spec_pre_backfill(t0, w0) =~= t0);
                }
                None
            },
            Some(d) => {
                let ghost t1 = spec_pre_backfill(t0, w0);
                let ghost vis = w0.visited;
                assert(w0.destination == Some(d@));
                let mut i: usize = 0;
                assert(vis.subrange(0, 0) =~= Seq::empty());
                while i < chain.len()
                    invariant
                        0 <= i <= chain@.len(),
                        self.provider_view() == p,
                        chain.deep_view() == vis,
                        w0 == spec_walk(t0, p, orig, orig, 0),
                        w0.destination == Some(d@),
                        t1 == spec_pre_backfill(t0, w0),
                        self.table() == add_visited(t1, vis.subrange(0, i as int), d@),
                    decreases chain@.len() - i,
                {
                    let ghost pre = vis.subrange(0, i as int);
                    let entry = RedirectEntry {
                        headers: clone_headers(&chain[i].1),
                        target: clone_bytes(&chain[i].2),
                        destination: Some(clone_bytes(&d)),
                    };
                    assert(slot_view(Some(entry)) == visited_entry(vis[i as int], d@)) by {
                        assert(vis[i as int] == (
                            chain@[i as int].0.deep_view(),
                            chain@[i as int].1.deep_view(),
                            chain@[i as int].2.deep_view(),
                        ));
                    }
                    let key = clone_bytes(&chain[i].0);
                    table_insert(&mut self.entries, key, Some(entry));
                    proof {
                        lemma_add_visited_snoc(t1, pre, vis[i as int], d@);
                        assert(pre.push(vis[i as int]) =~= vis.subrange(0, i + 1));
                    }
                    i += 1;
                }
                proof {
                    assert(vis.subrange(0, chain@.len() as int) =~= vis);
                    if t0.dom().finite() {
                        assert(t1.dom().finite());
                        lemma_add_visited_finite(t1, vis, d@);
                    }
                }
                Some(d)
            },
        }
    }
}

impl HeaderProvider {
    /// An owned copy of the provider's table.
    pub fn duplicate(&self) -> (r: HeaderProvider)
        ensures
            r@ == self@,
    {
        let mut entries: Vec<(Vec<u8>, Headers)> = Vec::new();
        let mut i: usize = 0;
        while i < self.entries.len()
            invariant
                i <= self.entries.len(),
                entries.deep_view() == self@.subrange(0, i as int),
            decreases self.entries.len() - i,
        {
            let ghost before = entries.deep_view();
            let row = &self.entries[i];
            entries.push((clone_bytes(&row.0), clone_headers(&row.1)));
            assert(entries.deep_view() =~~= before.push(self@[i as int]));
            i += 1;
        }
        assert(entries.deep_view() =~= self@);
        HeaderProvider { entries }
    }
}

impl RedirectResolver {
    /// A frozen copy: same provider, same memoized table, independent of the
    /// original.
    pub fn snapshot(&self) -> (r: RedirectResolver)
        ensures
            r.provider_view() == self.provider_view(),
            r.table() == self.table(),
    {
        RedirectResolver {
            provider: self.provider.duplicate(),
            entries: table_clone(&self.entries),
        }
    }

    /// Cache-invalidation hook: after an upstream cache refresh, keep only
    /// proven-terminal markers and entries whose chain has terminated, and
    /// drop in-flight placeholders, so future queries re-probe the header
    /// provider rather than trusting stale negatives.
    pub fn did_cache(&mut self)
        ensures
            final(self).provider_view() == old(self).provider_view(),
            final(self).table() == old(self).table().restrict(
                old(self).table().dom().filter(
                    |k: Seq<u8>| spec_slot_settled(old(self).table()[k]),
                ),
            ),
            old(self).table_finite() ==> final(self).table_finite(),
    {
        let ghost t0 = self.table();
        let ghost keep = t0.dom().filter(|k: Seq<u8>| spec_slot_settled(t0[k]));
        table_retain_settled(&mut self.entries);
        proof {
            assert(keep.subset_of(t0.dom()));
            assert(self.table().dom() =~= keep);
            if t0.dom().finite() {
                vstd::set_lib::lemma_set_subset_finite(t0.dom(), keep);
            }
        }
    }
}

/// One slot of a well-formed table: an entry has a destination, that
/// destination is memoized as terminal, the entry's target is memoized, and
/// the target's slot agrees on the destination.
pub open spec fn wf_slot(t: Map<Seq<u8>, Option<EntryView>>, s: Option<EntryView>) -> bool {
    match s {
        None => true,
        Some(e) => match e.destination {
            None => false,
            Some(d) => {
                &&& t.dom().contains(d)
                &&& t[d] is None
                &&& t.dom().contains(e.target)
                &&& match t[e.target] {
                    None => e.target == d,
                    Some(e2) => e2.destination == Some(d),
                }
            },
        },
    }
}

/// A well-formed redirect table: every memoized chain has terminated.
/// Resolution establishes and preserves this; a lockfile whose redirects
/// chain into one another can seed a table without it.
pub open spec fn wf_table(t: Map<Seq<u8>, Option<EntryView>>) -> bool {
    forall|u: Seq<u8>| #[trigger] t.dom().contains(u) ==> wf_slot(t, t[u])
}

/// The provider serves `d` and `d` redirects no further.
pub open spec fn fresh_terminus_at(p: Seq<(Seq<u8>, Seq<(Seq<u8>, Seq<u8>)>)>, d: Seq<u8>) -> bool {
    match spec_provider_lookup(p, d) {
        Some(h) => spec_header_lookup(h, location_key()) is None,
        None => false,
    }
}

/// Where the last visited hop of a walk points: at the destination itself
/// when the terminus was fresh, else at a memoized slot that yields the
/// destination.
pub open spec fn end_ok(
    t: Map<Seq<u8>, Option<EntryView>>,
    e: Seq<u8>,
    d: Seq<u8>,
    fresh: bool,
) -> bool {
    if fresh {
        e == d
    } else {
        t.dom().contains(e) && match t[e] {
            None => e == d,
            Some(e2) => e2.destination == Some(d),
        }
    }
}

/// What a walk over a well-formed table guarantees: a fresh flag only with
/// a destination; a destination that is (or becomes) terminal; visited hops
/// that are unmemoized, distinct from the destination, and linked in order
/// down to the terminus.
proof fn lemma_walk_props(
    t: Map<Seq<u8>, Option<EntryView>>,
    p: Seq<(Seq<u8>, Seq<(Seq<u8>, Seq<u8>)>)>,
    orig: Seq<u8>,
    current: Seq<u8>,
    hops: nat,
)
    requires
        wf_table(t),
    ensures
        ({
            let w = spec_walk(t, p, orig, current, hops);
            &&& (w.fresh ==> w.destination is Some)
            &&& match w.destination {
                None => true,
                Some(d) => {
                    &&& (w.fresh ==> !t.dom().contains(d) && fresh_terminus_at(p, d))
                    &&& (!w.fresh ==> t.dom().contains(d) && t[d] is None)
                    &&& (forall|i: int| 0 <= i < w.visited.len() ==> (#[trigger] w.visited[i]).0
                        != d && !t.dom().contains(w.visited[i].0))
                    &&& (forall|i: int| 0 <= i < w.visited.len() - 1 ==> (
                    #[trigger] w.visited[i]).2 == w.visited[i + 1].0)
                    &&& (w.visited.len() > 0 ==> w.visited[0].0 == current && end_ok(
                        t,
                        w.visited[w.visited.len() - 1].2,
                        d,
                        w.fresh,
                    ))
                },
            }
        }),
    decreases 11 - hops,
{
    let w = spec_walk(t, p, orig, current, hops);
    if t.dom().contains(current) {
        // hit: wf_table supplies the destination facts
    } else {
        match spec_provider_lookup(p, current) {
            None => {},
            Some(h) => match spec_header_lookup(h, location_key()) {
                None => {},
                Some(loc) => {
                    if hops > 10 {
                    } else {
                        match spec_resolve_import(loc, orig) {
                            None => {},
                            Some(tgt) => {
                                let rest = spec_walk(t, p, orig, tgt, hops + 1);
                                lemma_walk_props(t, p, orig, tgt, hops + 1);
                                match rest.destination {
                                    None => {},
                                    Some(d) => {
                                        assert(w.visited[0] == (current, h, tgt));
                                        assert forall|i: int| 1 <= i < w.visited.len() implies
                                            w.visited[i] == rest.visited[i - 1] by {}
                                        if w.fresh {
                                            assert(fresh_terminus_at(p, d));
                                            assert(current != d);
                                        }
                                        if rest.visited.len() == 0 {
                                            assert(end_ok(t, tgt, d, w.fresh));
                                        } else {
                                            assert(rest.visited[0].0 == tgt);
                                            assert(w.visited[w.visited.len() - 1]
                                                == rest.visited[rest.visited.len() - 1]);
                                        }
                                    },
                                }
                            },
                        }
                    }
                },
            },
        }
    }
}

/// Is some visited hop keyed by `k`?
pub open spec fn has_url(
    vis: Seq<(Seq<u8>, Seq<(Seq<u8>, Seq<u8>)>, Seq<u8>)>,
    k: Seq<u8>,
) -> bool {
    exists|i: int| 0 <= i < vis.len() && (#[trigger] vis[i]).0 == k
}

/// The entry the write-back leaves under `k`: the last visited hop keyed by
/// `k`, as an entry carrying `d`.
pub open spec fn last_entry(
    vis: Seq<(Seq<u8>, Seq<(Seq<u8>, Seq<u8>)>, Seq<u8>)>,
    k: Seq<u8>,
    d: Seq<u8>,
) -> Option<EntryView>
    decreases vis.len(),
{
    if vis.len() == 0 {
        None
    } else if vis.last().0 == k {
        visited_entry(vis.last(), d)
    } else {
        last_entry(vis.drop_last(), k, d)
    }
}

/// The write-back, slot by slot: a visited key holds its last visited hop,
/// every other key is untouched.
proof fn lemma_add_visited_at(
    t: Map<Seq<u8>, Option<EntryView>>,
    vis: Seq<(Seq<u8>, Seq<(Seq<u8>, Seq<u8>)>, Seq<u8>)>,
    d: Seq<u8>,
    k: Seq<u8>,
)
    ensures
        add_visited(t, vis, d).dom().contains(k) <==> (t.dom().contains(k) || has_url(vis, k)),
        add_visited(t, vis, d).dom().contains(k) ==> add_visited(t, vis, d)[k] == (if has_url(
            vis,
            k,
        ) {
            last_entry(vis, k, d)
        } else {
            t[k]
        }),
    decreases vis.len(),
{
    if vis.len() == 0 {
        assert(!has_url(vis, k));
    } else {
        let pre = vis.drop_last();
        let x = vis.last();
        lemma_add_visited_snoc(t, pre, x, d);
        assert(pre.push(x) =~= vis);
        lemma_add_visited_at(t, pre, d, k);
        if has_url(vis, k) && k != x.0 {
            assert(has_url(pre, k)) by {
                let i = choose|i: int| 0 <= i < vis.len() && (#[trigger] vis[i]).0 == k;
                assert(pre[i] == vis[i]);
            }
        }
        if has_url(pre, k) {
            assert(has_url(vis, k)) by {
                let i = choose|i: int| 0 <= i < pre.len() && (#[trigger] pre[i]).0 == k;
                assert(vis[i] == pre[i]);
            }
        }
        if k == x.0 {
            assert(has_url(vis, k)) by {
                assert(vis[vis.len() - 1].0 == k);
            }
        }
    }
}

/// A visited key's write-back entry carries the destination.
proof fn lemma_last_entry_form(
    vis: Seq<(Seq<u8>, Seq<(Seq<u8>, Seq<u8>)>, Seq<u8>)>,
    k: Seq<u8>,
    d: Seq<u8>,
)
    requires
        has_url(vis, k),
    ensures
        exists|i: int| 0 <= i < vis.len() && (#[trigger] vis[i]).0 == k && last_entry(vis, k, d)
            == visited_entry(vis[i], d),
    decreases vis.len(),
{
    if vis.last().0 == k {
        assert(vis[vis.len() - 1].0 == k && last_entry(vis, k, d) == visited_entry(
            vis[vis.len() - 1],
            d,
        ));
    } else {
        let pre = vis.drop_last();
        assert(has_url(pre, k)) by {
            let i = choose|i: int| 0 <= i < vis.len() && (#[trigger] vis[i]).0 == k;
            assert(pre[i] == vis[i]);
        }
        lemma_last_entry_form(pre, k, d);
        let i = choose|i: int|
            0 <= i < pre.len() && (#[trigger] pre[i]).0 == k && last_entry(pre, k, d)
                == visited_entry(pre[i], d);
        assert(vis[i] == pre[i]);
    }
}

/// Resolution preserves well-formedness, leaves the destination memoized as
/// terminal, and memoizes under the queried URL an entry that carries the
/// walk's destination.
pub proof fn lemma_table_after_wf(
    t: Map<Seq<u8>, Option<EntryView>>,
    p: Seq<(Seq<u8>, Seq<(Seq<u8>, Seq<u8>)>)>,
    u: Seq<u8>,
)
    requires
        wf_table(t),
    ensures
        wf_table(spec_table_after(t, p, u)),
        ({
            let w = spec_walk(t, p, u, u, 0);
            let t2 = spec_table_after(t, p, u);
            &&& (w.destination matches Some(d) ==> t2.dom().contains(d) && t2[d] is None)
            &&& (w.destination is None ==> t2 == t && !t.dom().contains(u))
            &&& (t2.dom().contains(u) ==> match t2[u] {
                None => w.destination == Some(u),
                Some(e) => e.destination == w.destination,
            })
        }),
{
    let w = spec_walk(t, p, u, u, 0);
    let t2 = spec_table_after(t, p, u);
    lemma_walk_props(t, p, u, u, 0);
    match w.destination {
        None => {
            if t.dom().contains(u) {
                assert(wf_slot(t, t[u]));
                assert(false);
            }
        },
        Some(d) => {
            let t1 = spec_pre_backfill(t, w);
            let vis = w.visited;
            assert(!has_url(vis, d)) by {
                if has_url(vis, d) {
                    let i = choose|i: int| 0 <= i < vis.len() && (#[trigger] vis[i]).0 == d;
                    assert(vis[i].0 != d);
                }
            }
            assert(t1.dom().contains(d) && t1[d] is None);
            lemma_add_visited_at(t1, vis, d, d);
            assert(t2.dom().contains(d) && t2[d] is None);
            // every slot of the new table is well-formed
            assert forall|k: Seq<u8>| #[trigger] t2.dom().contains(k) implies wf_slot(
                t2,
                t2[k],
            ) by {
                lemma_add_visited_at(t1, vis, d, k);
                if has_url(vis, k) {
                    lemma_last_entry_form(vis, k, d);
                    let i = choose|i: int|
                        0 <= i < vis.len() && (#[trigger] vis[i]).0 == k && last_entry(vis, k, d)
                            == visited_entry(vis[i], d);
                    assert(t2[k] == visited_entry(vis[i], d));
                    let tgt = vis[i].2;
                    lemma_add_visited_at(t1, vis, d, tgt);
                    if i < vis.len() - 1 {
                        assert(tgt == vis[i + 1].0);
                        assert(has_url(vis, tgt)) by {
                            assert(vis[i + 1].0 == tgt);
                        }
                        lemma_last_entry_form(vis, tgt, d);
                        let j = choose|j: int|
                            0 <= j < vis.len() && (#[trigger] vis[j]).0 == tgt && last_entry(
                                vis,
                                tgt,
                                d,
                            ) == visited_entry(vis[j], d);
                        assert(t2.dom().contains(tgt));
                        assert(t2[tgt] == visited_entry(vis[j], d));
                    } else {
                        assert(end_ok(t, tgt, d, w.fresh));
                        if w.fresh {
                            assert(tgt == d);
                        } else {
                            assert(!has_url(vis, tgt)) by {
                                if has_url(vis, tgt) {
                                    let j = choose|j: int|
                                        0 <= j < vis.len() && (#[trigger] vis[j]).0 == tgt;
                                    assert(!t.dom().contains(vis[j].0));
                                }
                            }
                            assert(t2[tgt] == t1[tgt]);
                        }
                    }
                } else if k == d {
                    assert(t2[k] is None);
                } else {
                    assert(t2[k] == t1[k] && t1[k] == t[k] && t.dom().contains(k));
                    assert(wf_slot(t, t[k]));
                    match t[k] {
                        None => {},
                        Some(e) => match e.destination {
                            None => {},
                            Some(d2) => {
                                assert(t.dom().contains(d2) && t[d2] is None);
                                assert(!has_url(vis, d2)) by {
                                    if has_url(vis, d2) {
                                        let j = choose|j: int|
                                            0 <= j < vis.len() && (#[trigger] vis[j]).0 == d2;
                                        assert(!t.dom().contains(vis[j].0));
                                    }
                                }
                                lemma_add_visited_at(t1, vis, d, d2);
                                assert(t2[d2] == t1[d2]);
                                if w.fresh {
                                    assert(!t.dom().contains(d));
                                }
                                assert(t2.dom().contains(d2) && t2[d2] is None);
                                assert(!has_url(vis, e.target)) by {
                                    if has_url(vis, e.target) {
                                        let j = choose|j: int|
                                            0 <= j < vis.len() && (#[trigger] vis[j]).0
                                                == e.target;
                                        assert(!t.dom().contains(vis[j].0));
                                    }
                                }
                                lemma_add_visited_at(t1, vis, d, e.target);
                                if w.fresh && e.target == d {
                                    assert(!t.dom().contains(d));
                                    assert(false);
                                }
                                assert(t2.dom().contains(e.target) && t2[e.target]
                                    == t[e.target]);
                            },
                        },
                    }
                }
            }
            // the slot under the queried URL
            if t2.dom().contains(u) {
                lemma_add_visited_at(t1, vis, d, u);
                if has_url(vis, u) {
                    lemma_last_entry_form(vis, u, d);
                } else if t.dom().contains(u) {
                    assert(t2[u] == t1[u] && t1[u] == t[u]);
                } else {
                    assert(w.fresh && u == d);
                }
            }
        },
    }
}

/// Idempotence of redirect resolution: over a well-formed table, once a URL
/// resolves to a destination, resolving that destination yields it back and
/// leaves the table untouched. Together with the contract of `resolve` —
/// which returns non-HTTP(S) input unchanged and otherwise follows the walk
/// this lemma speaks of — re-resolving any resolved URL changes nothing.
pub proof fn lemma_resolve_idempotent(
    t: Map<Seq<u8>, Option<EntryView>>,
    p: Seq<(Seq<u8>, Seq<(Seq<u8>, Seq<u8>)>)>,
    u: Seq<u8>,
)
    requires
        wf_table(t),
    ensures
        wf_table(spec_table_after(t, p, u)),
        match spec_walk(t, p, u, u, 0).destination {
            None => true,
            Some(d) => {
                let t2 = spec_table_after(t, p, u);
                &&& spec_walk(t2, p, d, d, 0).destination == Some(d)
                &&& spec_table_after(t2, p, d) == t2
            },
        },
{
    lemma_table_after_wf(t, p, u);
    match spec_walk(t, p, u, u, 0).destination {
        None => {},
        Some(d) => {
            let t2 = spec_table_after(t, p, u);
            let w2 = spec_walk(t2, p, d, d, 0);
            assert(w2.destination == Some(d) && w2.visited.len() == 0 && !w2.fresh);
            assert(spec_table_after(t2, p, d) == t2);
        },
    }
}

/// Is `x` among these URLs?
pub open spec fn spec_seq_contains(s: Seq<Seq<u8>>, x: Seq<u8>) -> bool {
    exists|i: int| 0 <= i < s.len() && s[i] == x
}

/// Linear membership test over owned URL bytes.
fn urls_contain(v: &Vec<Vec<u8>>, x: &Vec<u8>) -> (r: bool)
    ensures
        r == spec_seq_contains(v.deep_view(), x@),
{
    let mut i: usize = 0;
    while i < v.len()
        invariant
            i <= v.len(),
            forall|j: int| 0 <= j < i ==> v.deep_view()[j] != x@,
        decreases v.len() - i,
    {
        if bytes_eq(v[i].as_slice(), x.as_slice()) {
            assert(v.deep_view()[i as int] == x@);
            return true;
        }
        i += 1;
    }
    assert(!spec_seq_contains(v.deep_view(), x@)) by {
        if spec_seq_contains(v.deep_view(), x@) {
            let j = choose|j: int| 0 <= j < v.deep_view().len() && v.deep_view()[j] == x@;
        }
    }
    false
}

impl RedirectResolver {
    /// The memoized chain from a URL: resolve it, then read the table from
    /// the URL along target links, stopping at the terminus or at the first
    /// repeated URL. Each returned pair is a hop memoized in the table the
    /// resolution left behind, consecutive hops are linked by their targets,
    /// and the chain is empty exactly when no redirect entry is memoized for
    /// the URL itself.
    pub fn chain(&mut self, specifier: &Vec<u8>) -> (r: Vec<(Vec<u8>, RedirectEntry)>)
        requires
            old(self).table_finite(),
        ensures
            final(self).provider_view() == old(self).provider_view(),
            final(self).table_finite(),
            !spec_is_http_or_https(specifier@) ==> final(self).table() == old(self).table(),
            spec_is_http_or_https(specifier@) ==> final(self).table() == spec_table_after(
                old(self).table(),
                old(self).provider_view(),
                specifier@,
            ),
            forall|i: int| 0 <= i < r@.len() ==> final(self).table().dom().contains(
                (#[trigger] r@[i]).0@,
            ) && final(self).table()[r@[i].0@] == Some(r@[i].1@),
            forall|i: int| 0 <= i < r@.len() - 1 ==> (#[trigger] r@[i]).1@.target == r@[i
                + 1].0@,
            r@.len() > 0 <==> (final(self).table().dom().contains(specifier@)
                && final(self).table()[specifier@] is Some),
            r@.len() > 0 ==> r@[0].0@ == specifier@,
    {
        let _ = self.resolve(specifier);
        let ghost t2 = self.table();
        let mut result: Vec<(Vec<u8>, RedirectEntry)> = Vec::new();
        let mut seen: Vec<Vec<u8>> = Vec::new();
        let mut current: Vec<u8> = clone_bytes(specifier);
        let mut done: bool = false;
        while !done
            invariant
                self.table() == t2,
                self.table_finite(),
                self.provider_view() == old(self).provider_view(),
                seen.deep_view().no_duplicates(),
                forall|j: int| 0 <= j < seen.deep_view().len() ==> t2.dom().contains(
                    #[trigger] seen.deep_view()[j],
                ),
                seen.deep_view().len() <= t2.dom().len(),
                forall|i: int| 0 <= i < result@.len() ==> t2.dom().contains(
                    (#[trigger] result@[i]).0@,
                ) && t2[result@[i].0@] == Some(result@[i].1@),
                forall|i: int| 0 <= i < result@.len() - 1 ==> (#[trigger] result@[i]).1@.target
                    == result@[i + 1].0@,
                result@.len() > 0 ==> result@[0].0@ == specifier@,
                !done ==> !spec_seq_contains(seen.deep_view(), current@),
                !done ==> (result@.len() == 0 ==> current@ == specifier@),
                !done ==> (result@.len() > 0 ==> result@[result@.len() - 1].1@.target
                    == current@),
                done ==> (result@.len() > 0 <==> (t2.dom().contains(specifier@)
                    && t2[specifier@] is Some)),
            decreases (if done { 0int } else { t2.dom().len() + 1 - seen.deep_view().len() }),
        {
            match table_get(&self.entries, &current) {
                None => {
                    done = true;
                },
                Some(slot) => match slot {
                    None => {
                        done = true;
                    },
                    Some(entry) => {
                        let ghost ev = entry@;
                        let ghost seen0 = seen.deep_view();
                        let tgt = clone_bytes(&entry.target);
                        let key = clone_bytes(&current);
                        proof {
                            assert(t2.dom().contains(current@) && t2[current@] == Some(ev));
                        }
                        result.push((key, entry));
                        seen.push(clone_bytes(&current));
                        proof {
                            assert(seen.deep_view() =~= seen0.push(current@));
                            assert(seen.deep_view().drop_last() =~= seen0);
                            assert(result@[result@.len() - 1].0@ == current@);
                            assert(result@[result@.len() - 1].1@ == ev);
                            // the grown seen set still fits in the finite table
                            let sset = seen.deep_view().to_set();
                            assert(sset.subset_of(t2.dom())) by {
                                assert forall|k: Seq<u8>| sset.contains(k) implies t2
                                    .dom().contains(k) by {
                                    let j = choose|j: int|
                                        0 <= j < seen.deep_view().len() && seen.deep_view()[j]
                                            == k;
                                }
                            }
                            seen.deep_view().unique_seq_to_set();
                            vstd::set_lib::lemma_len_subset(sset, t2.dom());
                        }
                        if urls_contain(&seen, &tgt) {
                            done = true;
                            proof {
                                assert(result@.len() > 0);
                                assert(result@[0].0@ == specifier@);
                            }
                        } else {
                            current = tgt;
                        }
                    },
                },
            }
        }
        result
    }
}

/// Hops read from a well-formed table along target links all carry one
/// destination: the first hop's.
proof fn lemma_linked_entries_share_destination(
    t: Map<Seq<u8>, Option<EntryView>>,
    s: Seq<(Seq<u8>, EntryView)>,
)
    requires
        wf_table(t),
        forall|i: int| 0 <= i < s.len() ==> t.dom().contains((#[trigger] s[i]).0) && t[s[i].0]
            == Some(s[i].1),
        forall|i: int| 0 <= i < s.len() - 1 ==> (#[trigger] s[i]).1.target == s[i + 1].0,
    ensures
        forall|i: int| 0 <= i < s.len() ==> (#[trigger] s[i]).1.destination == s[0].1.destination,
    decreases s.len(),
{
    if s.len() > 1 {
        let rest = s.drop_first();
        assert(forall|i: int| 0 <= i < rest.len() ==> rest[i] == s[i + 1]);
        lemma_linked_entries_share_destination(t, rest);
        assert(wf_slot(t, t[s[0].0]));
        assert(s[0].1.target == s[1].0);
        assert(s[1].1.destination == s[0].1.destination);
        assert forall|i: int| 0 <= i < s.len() implies (#[trigger] s[i]).1.destination
            == s[0].1.destination by {
            if i >= 1 {
                assert(rest[i - 1] == s[i]);
                assert(rest[i - 1].1.destination == rest[0].1.destination);
            }
        }
    }
}

/// The chain terminates at the destination: on a well-formed table, a
/// non-empty memoized chain read from the resolved URL carries, on every
/// hop and in particular on its last, exactly the destination that
/// resolution returned for the URL.
pub proof fn lemma_chain_terminates_at_destination(
    t: Map<Seq<u8>, Option<EntryView>>,
    p: Seq<(Seq<u8>, Seq<(Seq<u8>, Seq<u8>)>)>,
    u: Seq<u8>,
    s: Seq<(Seq<u8>, EntryView)>,
)
    requires
        wf_table(t),
        s.len() > 0,
        s[0].0 == u,
        forall|i: int| 0 <= i < s.len() ==> spec_table_after(t, p, u).dom().contains(
            (#[trigger] s[i]).0,
        ) && spec_table_after(t, p, u)[s[i].0] == Some(s[i].1),
        forall|i: int| 0 <= i < s.len() - 1 ==> (#[trigger] s[i]).1.target == s[i + 1].0,
    ensures
        forall|i: int| 0 <= i < s.len() ==> (#[trigger] s[i]).1.destination == spec_walk(
            t,
            p,
            u,
            u,
            0,
        ).destination,
        s[s.len() - 1].1.destination == spec_walk(t, p, u, u, 0).destination,
{
    let t2 = spec_table_after(t, p, u);
    lemma_table_after_wf(t, p, u);
    lemma_linked_entries_share_destination(t2, s);
    assert(t2[u] == Some(s[0].1));
}

/// Cycle safety: a walk that starts inside a set of URLs closed under
/// redirection — none memoized, each redirecting into the set — terminates
/// (the walk is a total function) and returns nothing, whatever the hop
/// count already consumed.
pub proof fn lemma_cycle_returns_none(
    t: Map<Seq<u8>, Option<EntryView>>,
    p: Seq<(Seq<u8>, Seq<(Seq<u8>, Seq<u8>)>)>,
    orig: Seq<u8>,
    u: Seq<u8>,
    cycle: Set<Seq<u8>>,
    hops: nat,
)
    requires
        cycle.contains(u),
        forall|v: Seq<u8>| #[trigger] cycle.contains(v) ==> !t.dom().contains(v) && match
            spec_provider_lookup(p, v) {
            Some(h) => match spec_header_lookup(h, location_key()) {
                Some(loc) => match spec_resolve_import(loc, orig) {
                    Some(n) => cycle.contains(n),
                    None => false,
                },
                None => false,
            },
            None => false,
        },
    ensures
        spec_walk(t, p, orig, u, hops).destination is None,
    decreases 11 - hops,
{
    match spec_provider_lookup(p, u) {
        None => {
            assert(false);
        },
        Some(h) => match spec_header_lookup(h, location_key()) {
            None => {
                assert(false);
            },
            Some(loc) => match spec_resolve_import(loc, orig) {
                None => {
                    assert(false);
                },
                Some(n) => {
                    if hops <= 10 {
                        lemma_cycle_returns_none(t, p, orig, n, cycle, hops + 1);
                    }
                },
            },
        },
    }
}

/// The walk never records more than eleven hops: any longer chain is
/// abandoned, not memoized.
pub proof fn lemma_visited_bounded(
    t: Map<Seq<u8>, Option<EntryView>>,
    p: Seq<(Seq<u8>, Seq<(Seq<u8>, Seq<u8>)>)>,
    orig: Seq<u8>,
    current: Seq<u8>,
    hops: nat,
)
    ensures
        spec_walk(t, p, orig, current, hops).visited.len() <= (if hops >= 11 {
            0int
        } else {
            11 - hops
        }),
    decreases 11 - hops,
{
    if !t.dom().contains(current) {
        match spec_provider_lookup(p, current) {
            None => {},
            Some(h) => match spec_header_lookup(h, location_key()) {
                None => {},
                Some(loc) => {
                    if hops <= 10 {
                        match spec_resolve_import(loc, orig) {
                            None => {},
                            Some(tgt) => {
                                lemma_visited_bounded(t, p, orig, tgt, hops + 1);
                            },
                        }
                    }
                },
            },
        }
    }
}

/// One unmemoized redirect step: where the provider sends `v`, when `v` is
/// not memoized and redirects.
pub open spec fn spec_next(
    t: Map<Seq<u8>, Option<EntryView>>,
    p: Seq<(Seq<u8>, Seq<(Seq<u8>, Seq<u8>)>)>,
    orig: Seq<u8>,
    v: Seq<u8>,
) -> Option<Seq<u8>> {
    if t.dom().contains(v) {
        None
    } else {
        match spec_provider_lookup(p, v) {
            Some(h) => match spec_header_lookup(h, location_key()) {
                Some(loc) => spec_resolve_import(loc, orig),
                None => None,
            },
            None => None,
        }
    }
}

/// `n` redirect steps from `u`, or nothing once a step is not a redirect.
pub open spec fn spec_iter(
    t: Map<Seq<u8>, Option<EntryView>>,
    p: Seq<(Seq<u8>, Seq<(Seq<u8>, Seq<u8>)>)>,
    orig: Seq<u8>,
    u: Seq<u8>,
    n: nat,
) -> Option<Seq<u8>>
    decreases n,
{
    if n == 0 {
        Some(u)
    } else {
        match spec_iter(t, p, orig, u, (n - 1) as nat) {
            Some(v) => spec_next(t, p, orig, v),
            None => None,
        }
    }
}

/// Stepping once and iterating commutes with iterating once more.
proof fn lemma_iter_shift(
    t: Map<Seq<u8>, Option<EntryView>>,
    p: Seq<(Seq<u8>, Seq<(Seq<u8>, Seq<u8>)>)>,
    orig: Seq<u8>,
    u: Seq<u8>,
    v: Seq<u8>,
    n: nat,
)
    requires
        spec_next(t, p, orig, u) == Some(v),
    ensures
        spec_iter(t, p, orig, u, n + 1) == spec_iter(t, p, orig, v, n),
    decreases n,
{
    if n == 0 {
        assert(spec_iter(t, p, orig, u, 0) == Some(u));
        assert(spec_iter(t, p, orig, v, 0) == Some(v));
        assert(spec_iter(t, p, orig, u, 1) == spec_next(t, p, orig, u));
    } else {
        lemma_iter_shift(t, p, orig, u, v, (n - 1) as nat);
        assert(spec_iter(t, p, orig, u, n) == spec_iter(t, p, orig, v, (n - 1) as nat));
        assert(spec_iter(t, p, orig, u, n + 1) == match spec_iter(t, p, orig, u, n) {
            Some(w) => spec_next(t, p, orig, w),
            None => None,
        });
        assert(spec_iter(t, p, orig, v, n) == match spec_iter(t, p, orig, v, (n - 1) as nat) {
            Some(w) => spec_next(t, p, orig, w),
            None => None,
        });
    }
}

proof fn lemma_hop_limit_rec(
    t: Map<Seq<u8>, Option<EntryView>>,
    p: Seq<(Seq<u8>, Seq<(Seq<u8>, Seq<u8>)>)>,
    orig: Seq<u8>,
    current: Seq<u8>,
    hops: nat,
)
    requires
        hops <= 11,
        forall|i: nat| i <= 12 - hops ==> (#[trigger] spec_iter(t, p, orig, current, i)) is Some,
    ensures
        spec_walk(t, p, orig, current, hops).destination is None,
    decreases 11 - hops,
{
    assert(spec_iter(t, p, orig, current, 1) is Some);
    assert(spec_iter(t, p, orig, current, 0) == Some(current));
    let n = spec_next(t, p, orig, current);
    assert(n is Some);
    let v = n->0;
    if hops <= 10 {
        assert forall|i: nat| i <= 12 - (hops + 1) implies (#[trigger] spec_iter(
            t,
            p,
            orig,
            v,
            i,
        )) is Some by {
            lemma_iter_shift(t, p, orig, current, v, i);
            assert(spec_iter(t, p, orig, current, i + 1) is Some);
        }
        lemma_hop_limit_rec(t, p, orig, v, hops + 1);
    }
}

/// Hop limit: a header provider that produces twelve successive redirecting
/// hops from a URL drives the walk past its bound, and resolution returns
/// nothing.
pub proof fn lemma_hop_limit(
    t: Map<Seq<u8>, Option<EntryView>>,
    p: Seq<(Seq<u8>, Seq<(Seq<u8>, Seq<u8>)>)>,
    u: Seq<u8>,
)
    requires
        forall|i: nat| i <= 12 ==> (#[trigger] spec_iter(t, p, u, u, i)) is Some,
    ensures
        spec_walk(t, p, u, u, 0).destination is None,
{
    lemma_hop_limit_rec(t, p, u, u, 0);
}

/// Some pair's source parses to `k`.
pub open spec fn is_seed_source(pairs: Seq<(Seq<u8>, Seq<u8>)>, k: Seq<u8>) -> bool {
    exists|i: int| 0 <= i < pairs.len() && spec_url_parse((#[trigger] pairs[i]).0) == Some(k)
}

/// Some pair's destination parses to `k`.
pub open spec fn is_seed_dest(pairs: Seq<(Seq<u8>, Seq<u8>)>, k: Seq<u8>) -> bool {
    exists|i: int| 0 <= i < pairs.len() && spec_url_parse((#[trigger] pairs[i]).1) == Some(k)
}

/// No redirect source of the lockfile is also a redirect destination.
pub open spec fn seeds_flat(pairs: Seq<(Seq<u8>, Seq<u8>)>) -> bool {
    forall|i: int, j: int|
        #![trigger pairs[i], pairs[j]]
        0 <= i < pairs.len() && 0 <= j < pairs.len() ==> match (
            spec_url_parse(pairs[i].0),
            spec_url_parse(pairs[j].1),
        ) {
            (Some(s), Some(d)) => s != d,
            _ => true,
        }
}

proof fn lemma_seeded_props(pairs: Seq<(Seq<u8>, Seq<u8>)>)
    requires
        seeds_flat(pairs),
    ensures
        wf_table(spec_seeded(pairs)),
        spec_seeded(pairs).dom().finite(),
        forall|k: Seq<u8>| #[trigger] spec_seeded(pairs).dom().contains(k) ==> match spec_seeded(
            pairs,
        )[k] {
            Some(e) => is_seed_source(pairs, k) && e.destination == Some(e.target),
            None => is_seed_dest(pairs, k),
        },
    decreases pairs.len(),
{
    if pairs.len() == 0 {
    } else {
        let pre = pairs.drop_last();
        assert(seeds_flat(pre)) by {
            assert forall|i: int, j: int|
                #![trigger pre[i], pre[j]]
                0 <= i < pre.len() && 0 <= j < pre.len() implies match (
                spec_url_parse(pre[i].0),
                spec_url_parse(pre[j].1),
            ) {
                (Some(s), Some(d)) => s != d,
                _ => true,
            } by {
                assert(pre[i] == pairs[i]);
                assert(pre[j] == pairs[j]);
            }
        }
        lemma_seeded_props(pre);
        let s0 = spec_seeded(pre);
        let tbl = spec_seeded(pairs);
        assert(forall|k: Seq<u8>| is_seed_source(pre, k) ==> is_seed_source(pairs, k)) by {
            assert forall|k: Seq<u8>| is_seed_source(pre, k) implies is_seed_source(pairs, k) by {
                let i = choose|i: int|
                    0 <= i < pre.len() && spec_url_parse((#[trigger] pre[i]).0) == Some(k);
                assert(pairs[i] == pre[i]);
            }
        }
        assert(forall|k: Seq<u8>| is_seed_dest(pre, k) ==> is_seed_dest(pairs, k)) by {
            assert forall|k: Seq<u8>| is_seed_dest(pre, k) implies is_seed_dest(pairs, k) by {
                let i = choose|i: int|
                    0 <= i < pre.len() && spec_url_parse((#[trigger] pre[i]).1) == Some(k);
                assert(pairs[i] == pre[i]);
            }
        }
        match (spec_url_parse(pairs.last().0), spec_url_parse(pairs.last().1)) {
            (Some(sv), Some(dv)) => {
                assert(pairs[pairs.len() - 1] == pairs.last());
                assert(sv != dv);
                assert(is_seed_source(pairs, sv));
                assert(is_seed_dest(pairs, dv));
                assert forall|k: Seq<u8>| #[trigger] tbl.dom().contains(k) implies wf_slot(
                    tbl,
                    tbl[k],
                ) && match tbl[k] {
                    Some(e) => is_seed_source(pairs, k) && e.destination == Some(e.target),
                    None => is_seed_dest(pairs, k),
                } by {
                    if k == dv {
                    } else if k == sv {
                        assert(tbl[k] == Some(EntryView {
                            headers: Seq::<(Seq<u8>, Seq<u8>)>::empty(),
                            target: dv,
                            destination: Some(dv),
                        }));
                    } else {
                        assert(tbl[k] == s0[k] && s0.dom().contains(k));
                        assert(wf_slot(s0, s0[k]));
                        match s0[k] {
                            None => {},
                            Some(e) => {
                                assert(is_seed_source(pre, k) && e.destination == Some(
                                    e.target,
                                ));
                                let d2 = e.target;
                                assert(s0.dom().contains(d2) && s0[d2] is None);
                                assert(is_seed_dest(pre, d2));
                                assert(d2 != sv) by {
                                    if d2 == sv {
                                        let i = choose|i: int|
                                            0 <= i < pre.len() && spec_url_parse(
                                                (#[trigger] pre[i]).1,
                                            ) == Some(d2);
                                        assert(pairs[i] == pre[i]);
                                        assert(pairs[pairs.len() - 1] == pairs.last());
                                    }
                                }
                                assert(tbl.dom().contains(d2) && tbl[d2] is None);
                            },
                        }
                    }
                }
            },
            _ => {
                assert(tbl == s0);
            },
        }
    }
}

/// A lockfile whose redirects section is flat — no source URL is also a
/// destination URL — seeds a well-formed table. A lockfile that chains one
/// redirect into another can seed a table on which the resolution laws do
/// not all hold.
pub proof fn lemma_seeded_wf(pairs: Seq<(Seq<u8>, Seq<u8>)>)
    requires
        seeds_flat(pairs),
    ensures
        wf_table(spec_seeded(pairs)),
        spec_seeded(pairs).dom().finite(),
{
    lemma_seeded_props(pairs);
}

/// On a well-formed table the cache-invalidation hook drops nothing: every
/// memoized slot is settled, so the retained table is the whole table.
pub proof fn lemma_did_cache_preserves_wf(t: Map<Seq<u8>, Option<EntryView>>)
    requires
        wf_table(t),
    ensures
        t.restrict(t.dom().filter(|k: Seq<u8>| spec_slot_settled(t[k]))) == t,
{
    let keep = t.dom().filter(|k: Seq<u8>| spec_slot_settled(t[k]));
    assert(keep =~= t.dom()) by {
        assert forall|k: Seq<u8>| t.dom().contains(k) implies keep.contains(k) by {
            assert(wf_slot(t, t[k]));
        }
    }
    assert(t.restrict(keep) =~= t);
}

/// An owned copy of a header map.
pub fn clone_headers(h: &Headers) -> (r: Headers)
    ensures
        r.deep_view() == h.deep_view(),
{
    let mut r: Headers = Vec::new();
    let mut j: usize = 0;
    while j < h.len()
        invariant
            j <= h.len(),
            r.deep_view() == h.deep_view().subrange(0, j as int),
        decreases h.len() - j,
    {
        let ghost r0 = r.deep_view();
        r.push((clone_bytes(&h[j].0), clone_bytes(&h[j].1)));
        assert(r.deep_view() =~~= r0.push((h@[j as int].0@, h@[j as int].1@)));
        assert(r.deep_view() =~~= h.deep_view().subrange(0, j + 1));
        j += 1;
    }
    assert(r.deep_view() =~= h.deep_view());
    r
}

} // verus!
