//! The request pipeline: cache first, then the transport under retry and
//! backoff, then the cache again. The pipeline decides; whoever holds the
//! transport sends, waits and reports back.
use vstd::prelude::*;
use crate::backoff::{BackoffPolicy, PERMILLE};
use crate::cache::{
    copy_headers, fresh_spec, header_views, is_fresh, variant_matches, variant_of, revalidation_headers, revalidation_spec, storable_spec,
    CacheEntry, CacheKey, Response, ResponseCache,
};
use crate::directives::{directives_from_headers, header_fold};
use crate::retry::{should_retry, should_retry_spec, Method, Outcome};

verus! {

/// A request as callers issue it.
#[derive(Clone, Debug)]
pub struct Request {
    pub method: Method,
    pub url: String,
    pub headers: Vec<(String, String)>,
}

impl Request {
    pub open spec fn key(&self) -> (Method, Seq<char>) {
        (self.method, self.url@)
    }

    /// The request carries `Cache-Control: no-store`: nothing of it is kept.
    pub open spec fn no_store(&self) -> bool {
        header_fold(self.headers@).0.0
    }
}

/// What one send of a request brought back.
pub enum Received {
    /// The transport failed; `transient` when the failure may pass.
    Failed { transient: bool },
    /// A response arrived.
    Answered(Response),
}

pub open spec fn outcome_of(received: Received) -> Outcome {
    match received {
        Received::Failed { transient } => Outcome::TransportFailure { transient },
        Received::Answered(resp) => Outcome::Status(resp.status),
    }
}

/// The final failure of a request, once retries are spent or not allowed.
#[derive(Clone, Copy, Debug, PartialEq, Eq, Structural)]
pub enum PipelineError {
    /// The transport failed on the last attempt.
    Transport,
    /// The last response had this status, outside 2xx.
    Status(u16),
}

/// One request in flight: what to send, and how many retries it has had.
pub struct Exchange {
    pub request: Request,
    pub attempt: u32,
    /// Whether the request carries revalidation headers for a stored entry.
    pub revalidating: bool,
}

/// What to do after a send.
pub enum Step {
    /// Wait this many milliseconds, then send `request` of the exchange again.
    Wait { delay_ms: u64 },
    /// The request is over.
    Done(Result<Response, PipelineError>),
}

pub open spec fn status_ok(code: u16) -> bool {
    200 <= code < 300
}

/// The composed pipeline, with its retry budget, its backoff and, when
/// caching is on, its cache.
pub struct Pipeline {
    max_retries: u32,
    backoff: BackoffPolicy,
    cache: Option<ResponseCache>,
}

impl Pipeline {
    pub closed spec fn max_retries(&self) -> u32 {
        self.max_retries
    }

    pub closed spec fn backoff(&self) -> BackoffPolicy {
        self.backoff
    }

    pub closed spec fn caching(&self) -> bool {
        self.cache is Some
    }

    /// The entry a lookup of `k` would find; never one when caching is off.
    pub closed spec fn get(&self, k: (Method, Seq<char>)) -> Option<CacheEntry> {
        match self.cache {
            Some(c) => c.get(k),
            None => None,
        }
    }

    pub open spec fn wf(&self) -> bool {
        self.backoff().wf()
    }

    /// The cache left as it was for every key.
    pub open spec fn same_cache(&self, other: &Pipeline) -> bool {
        forall|k: (Method, Seq<char>)| self.get(k) == other.get(k)
    }

    /// The stored entry that answers a request of `method` to `url` with
    /// `headers` at `now` without a send: a fresh one that matches the
    /// request headers where its response varies, for GET and HEAD only.
    pub open spec fn cached_spec(
        &self,
        method: Method,
        url: Seq<char>,
        headers: Seq<(String, String)>,
        now: u64,
    ) -> Option<CacheEntry> {
        match self.get((method, url)) {
            Some(e) => if method.is_safe() && fresh_spec(e, now) && variant_matches(e, headers) {
                Some(e)
            } else {
                None
            },
            None => None,
        }
    }

    /// The entry that a request of `method` to `url` revalidates.
    pub open spec fn stale_spec(&self, method: Method, url: Seq<char>, headers: Seq<(String, String)>) -> Option<CacheEntry> {
        match self.get((method, url)) {
            Some(e) => if method.is_safe() && variant_matches(e, headers) {
                Some(e)
            } else {
                None
            },
            None => None,
        }
    }

    pub fn new(max_retries: u32, backoff: BackoffPolicy, caching: bool) -> (r: Pipeline)
        requires
            backoff.wf(),
        ensures
            r.wf(),
            r.max_retries() == max_retries,
            r.backoff() == backoff,
            r.caching() == caching,
            forall|k: (Method, Seq<char>)| r.get(k) is None,
    {
        let cache = if caching {
            Some(ResponseCache::new())
        } else {
            None
        };
        Pipeline { max_retries, backoff, cache }
    }

    /// The stored entry for `key`, fresh or not.
    pub fn entry(&self, key: &CacheKey) -> (r: Option<&CacheEntry>)
        ensures
            match r {
                None => self.get(key@) is None,
                Some(e) => self.get(key@) == Some(*e),
            },
    {
        match &self.cache {
            None => None,
            Some(c) => c.lookup(key),
        }
    }

    /// Keeps `entry`, as `ResponseCache::store` does, when caching is on;
    /// used to bring back entries persisted by an earlier run.
    pub fn store(&mut self, entry: CacheEntry)
        ensures
            final(self).max_retries() == old(self).max_retries(),
            final(self).backoff() == old(self).backoff(),
            final(self).caching() == old(self).caching(),
            !old(self).caching() ==> final(self).same_cache(old(self)),
            old(self).caching() && storable_spec(entry.key, entry.response) ==> final(self).get(
                entry.key@,
            ) == Some(entry),
            old(self).caching() && entry.key.method.is_safe() && entry.response.directives.no_store
                ==> final(self).get(entry.key@) is None,
            !entry.key.method.is_safe() ==> final(self).get(entry.key@) == old(self).get(
                entry.key@,
            ),
            forall|k: (Method, Seq<char>)| k != entry.key@ ==> final(self).get(k) == old(self).get(k),
    {
        if let Some(c) = &mut self.cache {
            c.store(entry);
        }
    }

    /// The answer from the cache, if a fresh entry holds one: then no send
    /// is needed. Requests other than GET and HEAD are never answered here.
    pub fn cached(&self, request: &Request, now: u64) -> (r: Option<Response>)
        ensures
            match self.cached_spec(request.method, request.url@, request.headers@, now) {
                None => r is None,
                Some(e) => r is Some && r->0@ == e.response@,
            },
    {
        if !request.method.safe() {
            return None;
        }
        match &self.cache {
            None => None,
            Some(c) => {
                let key = CacheKey { method: request.method, url: request.url.clone() };
                match c.lookup(&key) {
                    None => None,
                    Some(e) => if is_fresh(e, now) && variant_of(e, &request.headers) {
                        Some(e.response.duplicate())
                    } else {
                        None
                    },
                }
            },
        }
    }

    /// Starts a request that the cache could not answer. Where an entry is
    /// stored for it, the request asks the server whether that entry still
    /// holds.
    pub fn begin(&self, request: Request) -> (r: Exchange)
        ensures
            r.attempt == 0,
            r.request.method == request.method,
            r.request.url == request.url,
            r.revalidating == self.stale_spec(request.method, request.url@, request.headers@) is Some,
            header_views(r.request.headers@) == header_views(request.headers@) + match self.stale_spec(
                request.method,
                request.url@,
                request.headers@,
            ) {
                Some(e) => revalidation_spec(e),
                None => Seq::empty(),
            },
    {
        let mut request = request;
        let ghost original = request.headers@;
        let mut revalidating = false;
        if request.method.safe() {
            if let Some(c) = &self.cache {
                let key = CacheKey { method: request.method, url: request.url.clone() };
                if let Some(e) = c.lookup(&key) {
                    if variant_of(e, &request.headers) {
                        let mut extra = revalidation_headers(e);
                        let ghost added = extra@;
                        request.headers.append(&mut extra);
                        revalidating = true;
                        proof {
                            assert(request.headers@ == original + added);
                            assert(header_views(original + added) =~= header_views(original)
                                + header_views(added));
                        }
                    }
                }
            }
        }
        proof {
            if !revalidating {
                assert(header_views(request.headers@) =~= header_views(original) + Seq::empty());
            }
        }
        Exchange { request, attempt: 0, revalidating }
    }

    /// Decides what follows a send of `exchange`. A retryable outcome with
    /// retries left gives a wait of the backoff delay for the next attempt
    /// (`draw` is the jitter draw, in thousandths); otherwise the request is
    /// over. `304 Not Modified` to a revalidation refreshes the stored entry
    /// and answers with its response; a 2xx response is stored where
    /// allowed and returned; any other status, or a transport failure, is
    /// the error.
    pub fn finish(&mut self, exchange: &mut Exchange, received: Received, now: u64, draw: u64) -> (r:
        Step)
        requires
            old(self).wf(),
            draw <= PERMILLE,
        ensures
            final(self).wf(),
            final(self).max_retries() == old(self).max_retries(),
            final(self).backoff() == old(self).backoff(),
            final(self).caching() == old(self).caching(),
            final(exchange).request == old(exchange).request,
            final(exchange).revalidating == old(exchange).revalidating,
            forall|k: (Method, Seq<char>)|
                k != old(exchange).request.key() ==> final(self).get(k) == old(self).get(k),
            ({
                let method = old(exchange).request.method;
                let key = old(exchange).request.key();
                let attempt = old(exchange).attempt;
                if should_retry_spec(method, outcome_of(received), attempt, old(self).max_retries()) {
                    &&& r matches Step::Wait { delay_ms } && delay_ms == old(self).backoff().delay_spec(
                        (attempt + 1) as nat,
                        draw as nat,
                    )
                    &&& final(exchange).attempt == attempt + 1
                    &&& final(self).get(key) == old(self).get(key)
                } else {
                    &&& final(exchange).attempt == attempt
                    &&& match received {
                        Received::Failed { .. } => {
                            &&& r == Step::Done(Err(PipelineError::Transport))
                            &&& final(self).get(key) == old(self).get(key)
                        },
                        Received::Answered(resp) => if resp.status == 304 && old(exchange).revalidating
                            && method.is_safe() && old(self).get(key) is Some {
                            let e = old(self).get(key)->0;
                            &&& r matches Step::Done(Ok(out)) && out@ == e.response@
                            &&& final(self).get(key) == Some((CacheEntry { stored_at: now, ..e }))
                        } else if status_ok(resp.status) {
                            &&& r matches Step::Done(Ok(out)) && out@ == resp@
                            &&& if old(self).caching() && !old(exchange).request.no_store() && storable_spec(
                                (CacheKey { method, url: old(exchange).request.url }),
                                resp,
                            ) {
                                final(self).get(key) matches Some(e) && e.key@ == key
                                    && e.response@ == resp@ && e.stored_at == now
                                    && e.request_headers@ == old(exchange).request.headers@
                            } else if old(self).caching() && !old(exchange).request.no_store()
                                && method.is_safe() && resp.directives.no_store {
                                final(self).get(key) is None
                            } else {
                                final(self).get(key) == old(self).get(key)
                            }
                        } else {
                            &&& r == Step::Done(Err(PipelineError::Status(resp.status)))
                            &&& final(self).get(key) == old(self).get(key)
                        },
                    }
                }
            }),
    {
        let method = exchange.request.method;
        let outcome = match &received {
            Received::Failed { transient } => Outcome::TransportFailure { transient: *transient },
            Received::Answered(resp) => Outcome::Status(resp.status),
        };
        if should_retry(method, outcome, exchange.attempt, self.max_retries) {
            exchange.attempt = exchange.attempt + 1;
            let delay_ms = self.backoff.delay_ms(exchange.attempt, draw);
            return Step::Wait { delay_ms };
        }
        match received {
            Received::Failed { .. } => Step::Done(Err(PipelineError::Transport)),
            Received::Answered(resp) => {
                let key = CacheKey { method, url: exchange.request.url.clone() };
                if resp.status == 304 && exchange.revalidating && method.safe() {
                    if let Some(c) = &mut self.cache {
                        if let Some(out) = c.refresh(&key, now) {
                            return Step::Done(Ok(out));
                        }
                    }
                }
                if 200 <= resp.status && resp.status < 300 {
                    let request_flags = directives_from_headers(&exchange.request.headers);
                    if request_flags.no_store {
                        return Step::Done(Ok(resp));
                    }
                    match &mut self.cache {
                        None => Step::Done(Ok(resp)),
                        Some(c) => {
                            let out = resp.duplicate();
                            let request_headers = copy_headers(&exchange.request.headers);
                            c.store(CacheEntry { key, request_headers, response: resp, stored_at: now });
                            Step::Done(Ok(out))
                        },
                    }
                } else {
                    Step::Done(Err(PipelineError::Status(resp.status)))
                }
            },
        }
    }
}

/// Requests other than GET and HEAD bypass retry and cache: they are never
/// sent again, never answered from the cache, never revalidated, and their
/// responses are never stored.
pub proof fn lemma_unsafe_methods_bypass(
    p: Pipeline,
    method: Method,
    url: Seq<char>,
    headers: Seq<(String, String)>,
    outcome: Outcome,
    attempt: u32,
    now: u64,
    response: Response,
)
    requires
        !method.is_safe(),
    ensures
        !should_retry_spec(method, outcome, attempt, p.max_retries()),
        p.cached_spec(method, url, headers, now) is None,
        p.stale_spec(method, url, headers) is None,
        forall|u: String| !storable_spec((CacheKey { method, url: u }), response),
{
}

/// A fresh stored entry answers a GET or HEAD request whose headers it
/// matches by itself: every such request at `now` gets that entry's
/// response, and none is sent.
pub proof fn lemma_fresh_entry_answers(
    p: Pipeline,
    method: Method,
    url: Seq<char>,
    headers: Seq<(String, String)>,
    now: u64,
    e: CacheEntry,
)
    requires
        method.is_safe(),
        p.get((method, url)) == Some(e),
        fresh_spec(e, now),
        variant_matches(e, headers),
    ensures
        p.cached_spec(method, url, headers, now) == Some(e),
{
}

/// A response that `finish` has just stored with a positive `max-age` and
/// no `must-revalidate` answers the same GET or HEAD request at once: the
/// second request gets the stored status, headers and body, and sends
/// nothing.
pub proof fn lemma_stored_response_answers_again(
    p: Pipeline,
    method: Method,
    url: Seq<char>,
    headers: Seq<(String, String)>,
    now: u64,
    e: CacheEntry,
)
    requires
        method.is_safe(),
        p.get((method, url)) == Some(e),
        e.request_headers@ == headers,
        e.stored_at == now,
        e.response.directives.max_age matches Some(age) && age > 0,
        !e.response.directives.must_revalidate,
    ensures
        p.cached_spec(method, url, headers, now) == Some(e),
        p.cached_spec(method, url, headers, now)->0.response@ == e.response@,
{
}

} // verus!
