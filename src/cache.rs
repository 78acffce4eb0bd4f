//! The response cache: entries keyed by request, HTTP freshness, and
//! revalidation.
use vstd::prelude::*;
use crate::retry::Method;

verus! {

/// What identifies a cacheable request: its method and absolute URL.
#[derive(Clone, Debug)]
pub struct CacheKey {
    pub method: Method,
    pub url: String,
}

impl View for CacheKey {
    type V = (Method, Seq<char>);

    open spec fn view(&self) -> (Method, Seq<char>) {
        (self.method, self.url@)
    }
}

impl CacheKey {
    pub fn same(&self, other: &CacheKey) -> (r: bool)
        ensures
            r == (self@ == other@),
    {
        self.method == other.method && self.url == other.url
    }
}

/// The cache directives of a response, as its headers give them.
#[derive(Clone, Debug)]
pub struct Directives {
    /// `max-age`, in seconds.
    pub max_age: Option<u64>,
    pub must_revalidate: bool,
    pub no_store: bool,
    /// The `ETag` validator.
    pub etag: Option<String>,
    /// The `Last-Modified` validator.
    pub last_modified: Option<String>,
    /// The response carries `Vary`: it answers only the request headers it
    /// was stored for.
    pub vary: bool,
}

/// A response as the pipeline hands it on.
#[derive(Clone, Debug)]
pub struct Response {
    pub status: u16,
    pub headers: Vec<(String, String)>,
    pub body: Vec<u8>,
    pub directives: Directives,
}

/// What a response holds, as plain values.
pub struct ResponseView {
    pub status: u16,
    pub headers: Seq<(Seq<char>, Seq<char>)>,
    pub body: Seq<u8>,
    pub max_age: Option<u64>,
    pub must_revalidate: bool,
    pub no_store: bool,
    pub etag: Option<Seq<char>>,
    pub last_modified: Option<Seq<char>>,
    pub vary: bool,
}

pub open spec fn text_view(t: Option<String>) -> Option<Seq<char>> {
    match t {
        Some(s) => Some(s@),
        None => None,
    }
}

impl View for Response {
    type V = ResponseView;

    open spec fn view(&self) -> ResponseView {
        ResponseView {
            status: self.status,
            headers: header_views(self.headers@),
            body: self.body@,
            max_age: self.directives.max_age,
            must_revalidate: self.directives.must_revalidate,
            no_store: self.directives.no_store,
            etag: text_view(self.directives.etag),
            last_modified: text_view(self.directives.last_modified),
            vary: self.directives.vary,
        }
    }
}

/// A stored response with the time, in seconds, at which it was stored or
/// last revalidated.
#[derive(Clone, Debug)]
pub struct CacheEntry {
    pub key: CacheKey,
    /// The headers of the request that the response answered.
    pub request_headers: Vec<(String, String)>,
    pub response: Response,
    pub stored_at: u64,
}

/// `entry` answers a request with `headers`: its response does not vary,
/// or the request headers are those it was stored for.
pub open spec fn variant_matches(entry: CacheEntry, headers: Seq<(String, String)>) -> bool {
    !entry.response.directives.vary || header_views(entry.request_headers@) == header_views(headers)
}

/// Whether `entry` may be used at `now` without asking the server.
pub open spec fn fresh_spec(entry: CacheEntry, now: u64) -> bool {
    &&& !entry.response.directives.must_revalidate
    &&& entry.response.directives.max_age is Some
    &&& (now as int) < entry.stored_at + entry.response.directives.max_age->0
}

/// Whether a response to a request with `key` may be stored.
pub open spec fn storable_spec(key: CacheKey, response: Response) -> bool {
    key.method.is_safe() && !response.directives.no_store
}

/// The newest entry of `s` for `k`: entries stored later come later.
pub open spec fn find(s: Seq<CacheEntry>, k: (Method, Seq<char>)) -> Option<CacheEntry>
    decreases s.len(),
{
    if s.len() == 0 {
        None
    } else if s.last().key@ == k {
        Some(s.last())
    } else {
        find(s.drop_last(), k)
    }
}

/// `s` with every entry for `k` taken out.
pub open spec fn without(s: Seq<CacheEntry>, k: (Method, Seq<char>)) -> Seq<CacheEntry>
    decreases s.len(),
{
    if s.len() == 0 {
        s
    } else {
        let rest = without(s.drop_last(), k);
        if s.last().key@ == k {
            rest
        } else {
            rest.push(s.last())
        }
    }
}

proof fn lemma_find_push(s: Seq<CacheEntry>, e: CacheEntry, k: (Method, Seq<char>))
    ensures
        find(s.push(e), k) == if e.key@ == k {
            Some(e)
        } else {
            find(s, k)
        },
{
    assert(s.push(e).drop_last() =~= s);
}

proof fn lemma_find_without(s: Seq<CacheEntry>, k: (Method, Seq<char>), k2: (Method, Seq<char>))
    ensures
        find(without(s, k), k2) == if k2 == k {
            None
        } else {
            find(s, k2)
        },
    decreases s.len(),
{
    if s.len() > 0 {
        lemma_find_without(s.drop_last(), k, k2);
        let rest = without(s.drop_last(), k);
        if s.last().key@ != k {
            lemma_find_push(rest, s.last(), k2);
        }
    }
}

proof fn lemma_find_remove(s: Seq<CacheEntry>, i: int, k: (Method, Seq<char>))
    requires
        0 <= i < s.len(),
        s[i].key@ != k,
    ensures
        find(s.remove(i), k) == find(s, k),
    decreases s.len(),
{
    if i == s.len() - 1 {
        assert(s.remove(i) =~= s.drop_last());
    } else {
        assert(s.remove(i).drop_last() =~= s.drop_last().remove(i));
        assert(s.remove(i).last() == s.last());
        lemma_find_remove(s.drop_last(), i, k);
    }
}

proof fn lemma_find_index(s: Seq<CacheEntry>, k: (Method, Seq<char>))
    ensures
        find(s, k) is Some ==> exists|i: int| 0 <= i < s.len() && s[i] == find(s, k)->0,
        find(s, k) is Some ==> find(s, k)->0.key@ == k,
    decreases s.len(),
{
    if s.len() > 0 && s.last().key@ != k {
        lemma_find_index(s.drop_last(), k);
        if find(s, k) is Some {
            let i = choose|i: int| 0 <= i < s.drop_last().len() && s.drop_last()[i] == find(s, k)->0;
            assert(s[i] == find(s, k)->0);
        }
    }
}

/// The responses kept for later requests. The newest entry for a key is
/// the one that counts.
pub struct ResponseCache {
    entries: Vec<CacheEntry>,
}

impl ResponseCache {
    pub closed spec fn entries(&self) -> Seq<CacheEntry> {
        self.entries@
    }

    /// The entry that a lookup of `k` returns.
    pub open spec fn get(&self, k: (Method, Seq<char>)) -> Option<CacheEntry> {
        find(self.entries(), k)
    }

    /// `self` is `before` after storing `entry`: a storable entry becomes
    /// the one for its key, a GET or HEAD response marked `no-store` leaves
    /// none, other methods leave the key as it was; other keys are untouched.
    pub open spec fn stored_from(&self, before: ResponseCache, entry: CacheEntry) -> bool {
        &&& storable_spec(entry.key, entry.response) ==> self.get(entry.key@) == Some(entry)
        &&& entry.key.method.is_safe() && entry.response.directives.no_store ==> self.get(
            entry.key@,
        ) is None
        &&& !entry.key.method.is_safe() ==> self.get(entry.key@) == before.get(entry.key@)
        &&& forall|k: (Method, Seq<char>)| k != entry.key@ ==> self.get(k) == before.get(k)
    }

    pub fn new() -> (r: ResponseCache)
        ensures
            forall|k: (Method, Seq<char>)| r.get(k) is None,
    {
        ResponseCache { entries: Vec::new() }
    }

    /// Index of the newest entry for `key`, if any.
    fn position(&self, key: &CacheKey) -> (r: Option<usize>)
        ensures
            match r {
                None => self.get(key@) is None,
                Some(i) => i < self.entries@.len() && self.get(key@) == Some(self.entries@[i as int]),
            },
    {
        let mut i: usize = self.entries.len();
        proof {
            assert(self.entries@.subrange(0, i as int) =~= self.entries@);
        }
        while i > 0
            invariant
                i <= self.entries@.len(),
                find(self.entries@, key@) == find(self.entries@.subrange(0, i as int), key@),
            decreases i,
        {
            let ghost pre = self.entries@.subrange(0, i as int);
            if self.entries[i - 1].key.same(key) {
                proof {
                    assert(pre.last() == self.entries@[i - 1]);
                }
                return Some(i - 1);
            }
            proof {
                assert(pre.drop_last() =~= self.entries@.subrange(0, i - 1));
            }
            i = i - 1;
        }
        None
    }

    /// The newest entry for `key`, without any judgement of its freshness.
    pub fn lookup(&self, key: &CacheKey) -> (r: Option<&CacheEntry>)
        ensures
            match r {
                None => self.get(key@) is None,
                Some(e) => self.get(key@) == Some(*e),
            },
    {
        match self.position(key) {
            None => None,
            Some(i) => Some(&self.entries[i]),
        }
    }

    /// Takes out every entry for `key`.
    fn evict(&mut self, key: &CacheKey)
        ensures
            final(self).entries@ == without(old(self).entries@, key@),
    {
        let mut kept: Vec<CacheEntry> = Vec::new();
        let mut rest: Vec<CacheEntry> = Vec::new();
        std::mem::swap(&mut rest, &mut self.entries);
        let ghost all = rest@;
        let ghost n = all.len();
        while rest.len() > 0
            invariant
                rest@.len() <= n,
                n == all.len(),
                rest@ == all.subrange(n - rest@.len(), n as int),
                kept@ == without(all.subrange(0, n - rest@.len()), key@),
            decreases rest@.len(),
        {
            let ghost done = (n - rest@.len()) as int;
            let e = rest.remove(0);
            proof {
                assert(rest@ =~= all.subrange(n - rest@.len(), n as int));
                assert(e == all[done]);
                let upto = all.subrange(0, done + 1);
                assert(upto.drop_last() =~= all.subrange(0, done));
                assert(upto.last() == e);
            }
            if !e.key.same(key) {
                kept.push(e);
            }
        }
        proof {
            assert(all.subrange(0, n as int) =~= all);
        }
        self.entries = kept;
    }

    /// Keeps `entry` for later lookups of its key, in place of any older
    /// one. A response marked `no-store` is not kept, and any older entry
    /// for its key is dropped; requests other than GET and HEAD leave the
    /// cache as it is.
    pub fn store(&mut self, entry: CacheEntry)
        ensures
            final(self).stored_from(*old(self), entry),
    {
        if entry.key.method.safe() {
            let ghost before = self.entries@;
            self.evict(&entry.key);
            proof {
                assert forall|k: (Method, Seq<char>)| k != entry.key@ implies find(self.entries@, k) == find(before, k) by {
                    lemma_find_without(before, entry.key@, k);
                }
                lemma_find_without(before, entry.key@, entry.key@);
            }
            if !entry.response.directives.no_store {
                let ghost mid = self.entries@;
                let ghost e = entry;
                self.entries.push(entry);
                proof {
                    assert forall|k: (Method, Seq<char>)| true implies find(self.entries@, k) == (if e.key@ == k { Some(e) } else { find(mid, k) }) by {
                        lemma_find_push(mid, e, k);
                    }
                }
            }
        }
    }

    /// Takes the newest entry for `key` out of the cache.
    pub fn take(&mut self, key: &CacheKey) -> (r: Option<CacheEntry>)
        ensures
            r == old(self).get(key@),
            final(self).get(key@) is None,
            forall|k: (Method, Seq<char>)| k != key@ ==> final(self).get(k) == old(self).get(k),
    {
        let ghost before = self.entries@;
        match self.position(key) {
            None => {
                proof {
                    assert forall|k: (Method, Seq<char>)| true implies find(self.entries@, k) == find(before, k) by {}
                }
                None
            },
            Some(i) => {
                proof {
                    lemma_find_index(before, key@);
                }
                let e = self.entries.remove(i);
                let ghost removed = self.entries@;
                self.evict(key);
                proof {
                    assert(e.key@ == key@);
                    assert forall|k: (Method, Seq<char>)| k != key@ implies find(self.entries@, k) == find(before, k) by {
                        lemma_find_without(removed, key@, k);
                        lemma_find_remove(before, i as int, k);
                    }
                    lemma_find_without(removed, key@, key@);
                }
                Some(e)
            },
        }
    }

    /// After the server answered `304 Not Modified` to a revalidation: the
    /// newest entry for `key` counts as stored at `now`, with its response
    /// unchanged, and a copy of that response is returned.
    pub fn refresh(&mut self, key: &CacheKey, now: u64) -> (r: Option<Response>)
        ensures
            match old(self).get(key@) {
                None => r is None && final(self).get(key@) is None,
                Some(e) => r is Some && r->0@ == e.response@ && final(self).get(key@) == Some(
                    (CacheEntry { stored_at: now, ..e }),
                ),
            },
            forall|k: (Method, Seq<char>)| k != key@ ==> final(self).get(k) == old(self).get(k),
    {
        match self.take(key) {
            None => None,
            Some(e) => {
                let mut e = e;
                e.stored_at = now;
                let copy = e.response.duplicate();
                let ghost mid = self.entries@;
                let ghost pushed = e;
                proof {
                    lemma_find_index(old(self).entries@, key@);
                }
                self.entries.push(e);
                proof {
                    assert forall|k: (Method, Seq<char>)| true implies find(self.entries@, k) == (if pushed.key@ == k { Some(pushed) } else { find(mid, k) }) by {
                        lemma_find_push(mid, pushed, k);
                    }
                }
                Some(copy)
            },
        }
    }
}

/// Whether `entry` may be used at `now` (seconds) without asking the
/// server: it has a `max-age` that has not run out since it was stored,
/// and no `must-revalidate`.
pub fn is_fresh(entry: &CacheEntry, now: u64) -> (r: bool)
    ensures
        r == fresh_spec(*entry, now),
{
    if entry.response.directives.must_revalidate {
        return false;
    }
    match entry.response.directives.max_age {
        None => false,
        Some(age) => now < entry.stored_at || now - entry.stored_at < age,
    }
}

/// A response marked `no-store` is never kept: after it is stored, a
/// lookup of its key finds nothing.
pub proof fn lemma_no_store_is_absent(before: ResponseCache, after: ResponseCache, entry: CacheEntry)
    requires
        after.stored_from(before, entry),
        entry.key.method.is_safe(),
        entry.response.directives.no_store,
    ensures
        after.get(entry.key@) is None,
{
}

/// Storing an entry and looking its key up at once gives back that entry,
/// with the same status, headers and body.
pub proof fn lemma_store_lookup_round_trip(
    before: ResponseCache,
    after: ResponseCache,
    entry: CacheEntry,
)
    requires
        after.stored_from(before, entry),
        storable_spec(entry.key, entry.response),
    ensures
        after.get(entry.key@) == Some(entry),
        after.get(entry.key@)->0.response@ == entry.response@,
{
}

pub open spec fn header_views(h: Seq<(String, String)>) -> Seq<(Seq<char>, Seq<char>)> {
    h.map_values(|p: (String, String)| (p.0@, p.1@))
}

/// The conditional headers that ask the server whether `entry` still
/// holds: `If-None-Match` from its `ETag`, `If-Modified-Since` from its
/// `Last-Modified`.
pub open spec fn revalidation_spec(entry: CacheEntry) -> Seq<(Seq<char>, Seq<char>)> {
    let d = entry.response.directives;
    let by_tag = match d.etag {
        Some(t) => seq![("If-None-Match"@, t@)],
        None => Seq::empty(),
    };
    let by_date = match d.last_modified {
        Some(m) => seq![("If-Modified-Since"@, m@)],
        None => Seq::empty(),
    };
    by_tag + by_date
}

/// Copies a list of headers.
pub fn copy_headers(h: &Vec<(String, String)>) -> (r: Vec<(String, String)>)
    ensures
        r@ == h@,
{
    let mut r: Vec<(String, String)> = Vec::new();
    let mut i: usize = 0;
    while i < h.len()
        invariant
            i <= h@.len(),
            r@ == h@.subrange(0, i as int),
        decreases h@.len() - i,
    {
        let name = h[i].0.clone();
        let value = h[i].1.clone();
        r.push((name, value));
        proof {
            assert(r@ =~= h@.subrange(0, i + 1));
        }
        i = i + 1;
    }
    proof {
        assert(h@.subrange(0, h@.len() as int) =~= h@);
    }
    r
}

fn copy_text(t: &Option<String>) -> (r: Option<String>)
    ensures
        r == *t,
{
    match t {
        Some(s) => Some(s.clone()),
        None => None,
    }
}

impl Response {
    /// An exact copy of this response.
    pub fn duplicate(&self) -> (r: Response)
        ensures
            r@ == self@,
    {
        let body = self.body.clone();
        proof {
            assert(body@ =~= self.body@);
        }
        let d = &self.directives;
        Response {
            status: self.status,
            headers: copy_headers(&self.headers),
            body,
            directives: Directives {
                max_age: d.max_age,
                must_revalidate: d.must_revalidate,
                no_store: d.no_store,
                etag: copy_text(&d.etag),
                last_modified: copy_text(&d.last_modified),
                vary: d.vary,
            },
        }
    }
}

/// Whether two header lists hold the same names and values in the same
/// order.
pub fn same_headers(a: &Vec<(String, String)>, b: &Vec<(String, String)>) -> (r: bool)
    ensures
        r == (header_views(a@) == header_views(b@)),
{
    if a.len() != b.len() {
        proof {
            assert(header_views(a@).len() != header_views(b@).len());
        }
        return false;
    }
    let mut i: usize = 0;
    while i < a.len()
        invariant
            a@.len() == b@.len(),
            i <= a@.len(),
            forall|j: int| 0 <= j < i ==> header_views(a@)[j] == header_views(b@)[j],
        decreases a@.len() - i,
    {
        if a[i].0 != b[i].0 || a[i].1 != b[i].1 {
            proof {
                assert(header_views(a@)[i as int] != header_views(b@)[i as int]);
            }
            return false;
        }
        i = i + 1;
    }
    proof {
        assert(header_views(a@) =~= header_views(b@));
    }
    true
}

/// Whether `entry` answers a request with `headers`.
pub fn variant_of(entry: &CacheEntry, headers: &Vec<(String, String)>) -> (r: bool)
    ensures
        r == variant_matches(*entry, headers@),
{
    !entry.response.directives.vary || same_headers(&entry.request_headers, headers)
}

/// The headers that revalidate `entry`.
pub fn revalidation_headers(entry: &CacheEntry) -> (r: Vec<(String, String)>)
    ensures
        header_views(r@) == revalidation_spec(*entry),
{
    let mut r: Vec<(String, String)> = Vec::new();
    let d = &entry.response.directives;
    if let Some(t) = &d.etag {
        r.push(("If-None-Match".to_owned(), t.clone()));
    }
    let ghost mid = r@;
    if let Some(m) = &d.last_modified {
        r.push(("If-Modified-Since".to_owned(), m.clone()));
    }
    proof {
        reveal_strlit("If-None-Match");
        reveal_strlit("If-Modified-Since");
        assert(header_views(r@) =~= revalidation_spec(*entry));
    }
    r
}

} // verus!
