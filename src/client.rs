//! The client: a registry base URL bound to a configured pipeline, and the
//! builder that configures it.
use vstd::prelude::*;
use crate::backoff::BackoffPolicy;
use crate::cache::text_view;
use crate::pipeline::{Pipeline, Request};
use crate::retry::Method;

verus! {

/// The serialization of the absolute URL that `text` denotes, or none when
/// `text` is not one.
pub uninterp spec fn parsed_url(text: Seq<char>) -> Option<Seq<char>>;

/// The serialization of `reference` resolved against the absolute URL
/// `base`, or none when either fails.
pub uninterp spec fn joined_url(base: Seq<char>, reference: Seq<char>) -> Option<Seq<char>>;

/// Relies on `url::Url::parse`, which accepts absolute URLs only, and on the
/// serialization of the parsed URL.
#[verifier::external_body]
fn parse_url(text: &str) -> (r: Option<String>)
    ensures
        text_view(r) == parsed_url(text@),
{
    url::Url::parse(text).ok().map(String::from)
}

/// Relies on `url::Url::join`, applied to `base` as `url::Url::parse`
/// reads it, and on the serialization of the result.
#[verifier::external_body]
fn join_url(base: &str, reference: &str) -> (r: Option<String>)
    ensures
        text_view(r) == joined_url(base@, reference@),
{
    match url::Url::parse(base) {
        Ok(b) => b.join(reference).ok().map(String::from),
        Err(_) => None,
    }
}

/// Why a client could not be built or a request could not be formed.
#[derive(Clone, Copy, Debug, PartialEq, Eq, Structural)]
pub enum ClientError {
    /// The registry base URL is not a valid absolute URL.
    InvalidRegistry,
    /// The cache location is empty.
    InvalidCachePath,
    /// The URL of a request is not valid, or cannot be resolved against
    /// the registry.
    InvalidUrl,
}

/// Configuration of a client: registry, retries and cache location.
#[derive(Clone, Debug)]
pub struct PypiClientBuilder {
    registry: String,
    retries: u32,
    cache: Option<String>,
}

pub open spec fn default_registry() -> Seq<char> {
    "https://pypi.org"@
}

impl PypiClientBuilder {
    pub closed spec fn registry_spec(&self) -> Seq<char> {
        self.registry@
    }

    pub closed spec fn retries_spec(&self) -> u32 {
        self.retries
    }

    pub closed spec fn cache_spec(&self) -> Option<Seq<char>> {
        text_view(self.cache)
    }

    /// Sets the registry base URL.
    pub fn registry(self, registry: String) -> (r: Self)
        ensures
            r.registry_spec() == registry@,
            r.retries_spec() == self.retries_spec(),
            r.cache_spec() == self.cache_spec(),
    {
        let mut b = self;
        b.registry = registry;
        b
    }

    /// Sets how many times a failed request is sent again.
    pub fn retries(self, retries: u32) -> (r: Self)
        ensures
            r.registry_spec() == self.registry_spec(),
            r.retries_spec() == retries,
            r.cache_spec() == self.cache_spec(),
    {
        let mut b = self;
        b.retries = retries;
        b
    }

    /// Turns caching on, with the cache persisted under the directory
    /// `cache`; the client hands that location on to whoever stores entries.
    pub fn cache(self, cache: String) -> (r: Self)
        ensures
            r.registry_spec() == self.registry_spec(),
            r.retries_spec() == self.retries_spec(),
            r.cache_spec() == Some(cache@),
    {
        let mut b = self;
        b.cache = Some(cache);
        b
    }

    /// Builds the client: the registry must be a valid absolute URL and a
    /// cache location, if set, must not be empty.
    pub fn build(self) -> (r: Result<PypiClient, ClientError>)
        ensures
            parsed_url(self.registry_spec()) is None ==> r == Err::<PypiClient, ClientError>(
                ClientError::InvalidRegistry,
            ),
            parsed_url(self.registry_spec()) is Some && self.cache_spec() == Some(Seq::<char>::empty())
                ==> r == Err::<PypiClient, ClientError>(ClientError::InvalidCachePath),
            parsed_url(self.registry_spec()) is Some && self.cache_spec() != Some(Seq::<char>::empty())
                ==> (r matches Ok(c) && c.wf() && Some(c.registry_spec()) == parsed_url(
                self.registry_spec(),
            ) && c.pipeline.max_retries() == self.retries_spec() && c.pipeline.caching() == (
            self.cache_spec() is Some) && text_view(c.cache) == self.cache_spec()
                && c.pipeline.backoff() == BackoffPolicy::standard_spec()
                && forall|k: (Method, Seq<char>)| c.pipeline.get(k) is None),
    {
        let registry = match parse_url(self.registry.as_str()) {
            None => {
                return Err(ClientError::InvalidRegistry);
            },
            Some(u) => u,
        };
        let caching = match &self.cache {
            None => false,
            Some(path) => {
                if path.as_str().is_empty() {
                    proof {
                        assert(path@ =~= Seq::<char>::empty());
                    }
                    return Err(ClientError::InvalidCachePath);
                }
                true
            },
        };
        let backoff = BackoffPolicy::standard();
        Ok(
            PypiClient {
                registry,
                cache: self.cache,
                pipeline: Pipeline::new(self.retries, backoff, caching),
            },
        )
    }
}

impl Default for PypiClientBuilder {
    /// The public registry, no retries, no cache.
    fn default() -> (r: Self)
        ensures
            r.registry_spec() == default_registry(),
            r.retries_spec() == 0,
            r.cache_spec() is None,
    {
        PypiClientBuilder { registry: "https://pypi.org".to_owned(), retries: 0, cache: None }
    }
}

/// A client bound to one registry, with its pipeline.
pub struct PypiClient {
    /// The registry base URL, as parsed.
    pub registry: String,
    /// The directory where cache entries persist, when caching is on.
    pub cache: Option<String>,
    pub pipeline: Pipeline,
}

impl PypiClient {
    pub open spec fn registry_spec(&self) -> Seq<char> {
        self.registry@
    }

    pub open spec fn wf(&self) -> bool {
        &&& self.pipeline.wf()
        &&& self.pipeline.caching() == (self.cache is Some)
    }

    /// The registry base URL, as parsed.
    pub fn registry(&self) -> (r: &str)
        ensures
            r@ == self.registry_spec(),
    {
        self.registry.as_str()
    }

    /// The directory where cache entries persist, if caching is on.
    pub fn cache_location(&self) -> (r: Option<&str>)
        ensures
            match r {
                None => self.cache is None,
                Some(p) => self.cache is Some && p@ == self.cache->0@,
            },
    {
        match &self.cache {
            None => None,
            Some(p) => Some(p.as_str()),
        }
    }

    /// The absolute URL of `url_or_path`: resolved against the registry
    /// when `relative_to_registry`, taken as it is otherwise.
    pub fn resolve(&self, url_or_path: &str, relative_to_registry: bool) -> (r: Option<String>)
        ensures
            text_view(r) == if relative_to_registry {
                joined_url(self.registry_spec(), url_or_path@)
            } else {
                parsed_url(url_or_path@)
            },
    {
        if relative_to_registry {
            join_url(self.registry.as_str(), url_or_path)
        } else {
            parse_url(url_or_path)
        }
    }

    /// Forms the request that the pipeline runs, with its URL resolved.
    pub fn request(
        &self,
        method: Method,
        url_or_path: &str,
        headers: Vec<(String, String)>,
        relative_to_registry: bool,
    ) -> (r: Result<Request, ClientError>)
        ensures
            match (if relative_to_registry {
                joined_url(self.registry_spec(), url_or_path@)
            } else {
                parsed_url(url_or_path@)
            }) {
                None => r == Err::<Request, ClientError>(ClientError::InvalidUrl),
                Some(u) => (r matches Ok(req) && req.method == method && req.url@ == u
                    && req.headers == headers),
            },
    {
        match self.resolve(url_or_path, relative_to_registry) {
            None => Err(ClientError::InvalidUrl),
            Some(url) => Ok(Request { method, url, headers }),
        }
    }
}

} // verus!
