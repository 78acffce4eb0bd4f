use puffin_client::backoff::BackoffPolicy;
use puffin_client::cache::{is_fresh, revalidation_headers, CacheEntry, CacheKey, Directives, Response};
use puffin_client::client::{ClientError, PypiClientBuilder};
use puffin_client::retry::{classify, should_retry, Method, Outcome, StatusClass};

#[test]
fn backoff_grows_and_caps() {
    let p = BackoffPolicy { base_ms: 100, multiplier: 3, cap_ms: 2000, jitter_permille: 200 };
    assert_eq!(p.envelope_ms(0), 100);
    assert_eq!(p.envelope_ms(1), 100);
    assert_eq!(p.envelope_ms(2), 300);
    assert_eq!(p.envelope_ms(3), 900);
    assert_eq!(p.envelope_ms(4), 2000);
    assert_eq!(p.envelope_ms(40), 2000);
    assert_eq!(p.delay_ms(3, 0), 900);
    assert_eq!(p.delay_ms(3, 1000), 720);
    assert_eq!(p.delay_ms(3, 500), 810);
    let mut last = 0;
    for a in 1..30u32 {
        let d = p.delay_ms(a, 1000);
        assert!(d >= last && d <= 2000);
        assert!(d * 1000 >= p.envelope_ms(a) * 800);
        last = d;
    }
}

#[test]
fn standard_backoff_saturates() {
    let p = BackoffPolicy::standard();
    assert_eq!(p.delay_ms(1, 0), 1000);
    assert_eq!(p.delay_ms(2, 0), 2000);
    assert_eq!(p.delay_ms(1, 1000), 0);
    assert_eq!(p.delay_ms(200, 0), 1_800_000);
}

#[test]
fn status_classes() {
    assert_eq!(classify(200), StatusClass::Success);
    assert_eq!(classify(503), StatusClass::Transient);
    assert_eq!(classify(408), StatusClass::Transient);
    assert_eq!(classify(429), StatusClass::Transient);
    assert_eq!(classify(404), StatusClass::Fatal);
    assert_eq!(classify(301), StatusClass::Fatal);
    assert_eq!(classify(42), StatusClass::Fatal);
}

#[test]
fn retry_decisions() {
    assert!(should_retry(Method::Get, Outcome::Status(503), 0, 1));
    assert!(!should_retry(Method::Get, Outcome::Status(503), 1, 1));
    assert!(!should_retry(Method::Get, Outcome::Status(501), 0, 3));
    assert!(!should_retry(Method::Post, Outcome::Status(503), 0, 3));
    assert!(should_retry(Method::Head, Outcome::TransportFailure { transient: true }, 2, 3));
    assert!(!should_retry(Method::Get, Outcome::TransportFailure { transient: false }, 0, 3));
    assert!(!should_retry(Method::Get, Outcome::Status(400), 0, 3));
}

fn entry(max_age: Option<u64>, must_revalidate: bool, etag: Option<&str>, modified: Option<&str>) -> CacheEntry {
    CacheEntry {
        key: CacheKey { method: Method::Get, url: "https://pypi.org/".to_string() },
        request_headers: vec![],
        response: Response {
            status: 200,
            headers: vec![],
            body: vec![1, 2, 3],
            directives: Directives {
                max_age,
                must_revalidate,
                no_store: false,
                etag: etag.map(|s| s.to_string()),
                last_modified: modified.map(|s| s.to_string()),
                vary: false,
            },
        },
        stored_at: 100,
    }
}

#[test]
fn freshness_rules() {
    assert!(is_fresh(&entry(Some(60), false, None, None), 159));
    assert!(!is_fresh(&entry(Some(60), false, None, None), 160));
    assert!(!is_fresh(&entry(None, false, None, None), 100));
    assert!(!is_fresh(&entry(Some(60), true, None, None), 101));
}

#[test]
fn revalidation_headers_from_validators() {
    let h = revalidation_headers(&entry(None, false, Some("\"abc\""), Some("Wed, 21 Oct 2015 07:28:00 GMT")));
    assert_eq!(
        h,
        vec![
            ("If-None-Match".to_string(), "\"abc\"".to_string()),
            ("If-Modified-Since".to_string(), "Wed, 21 Oct 2015 07:28:00 GMT".to_string()),
        ]
    );
    assert!(revalidation_headers(&entry(None, false, None, None)).is_empty());
}

#[test]
fn builder_defaults_and_resolution() {
    let client = PypiClientBuilder::default().build().ok().unwrap();
    assert_eq!(client.registry(), "https://pypi.org/");
    assert_eq!(client.cache_location(), None);
    assert_eq!(client.resolve("simple/flask/", true), Some("https://pypi.org/simple/flask/".to_string()));
    assert_eq!(client.resolve("not a url", false), None);
    let req = client.request(Method::Get, "/pypi/flask/json", vec![], true).ok().unwrap();
    assert_eq!(req.url, "https://pypi.org/pypi/flask/json");
    assert!(matches!(client.request(Method::Get, "relative", vec![], false), Err(ClientError::InvalidUrl)));
}

#[test]
fn builder_configuration_errors() {
    let b = PypiClientBuilder::default().registry("no scheme here".to_string());
    assert!(matches!(b.build(), Err(ClientError::InvalidRegistry)));
    let b = PypiClientBuilder::default().cache(String::new());
    assert!(matches!(b.build(), Err(ClientError::InvalidCachePath)));
    let c = PypiClientBuilder::default()
        .registry("https://test.pypi.org/simple/".to_string())
        .retries(3)
        .cache("/tmp/cache".to_string())
        .build()
        .ok()
        .unwrap();
    assert_eq!(c.registry(), "https://test.pypi.org/simple/");
    assert_eq!(c.cache_location(), Some("/tmp/cache"));
    assert_eq!(c.resolve("flask/", true), Some("https://test.pypi.org/simple/flask/".to_string()));
}

fn hdr(name: &str, value: &str) -> (String, String) {
    (name.to_string(), value.to_string())
}

#[test]
fn cache_control_is_read_from_headers() {
    let d = puffin_client::directives::directives_from_headers(&vec![
        hdr("Content-Type", "text/html"),
        hdr("Cache-Control", "public, MAX-AGE=120 , must-revalidate"),
        hdr("ETag", "\"abc\""),
        hdr("last-modified", "Wed, 21 Oct 2015 07:28:00 GMT"),
    ]);
    assert_eq!(d.max_age, Some(120));
    assert!(d.must_revalidate);
    assert!(!d.no_store);
    assert_eq!(d.etag, Some("\"abc\"".to_string()));
    assert_eq!(d.last_modified, Some("Wed, 21 Oct 2015 07:28:00 GMT".to_string()));
    assert!(!d.vary);
    let d = puffin_client::directives::directives_from_headers(&vec![hdr("VARY", "Accept")]);
    assert!(d.vary);
}

#[test]
fn cache_control_edge_cases() {
    let d = puffin_client::directives::directives_from_headers(&vec![hdr("cache-control", "no-store")]);
    assert!(d.no_store);
    assert_eq!(d.max_age, None);
    let d = puffin_client::directives::directives_from_headers(&vec![hdr("cache-control", "max-age=99999999999999999999999")]);
    assert_eq!(d.max_age, None);
    let d = puffin_client::directives::directives_from_headers(&vec![hdr("cache-control", "max-age=")]);
    assert_eq!(d.max_age, None);
    let d = puffin_client::directives::directives_from_headers(&vec![hdr("cache-control", "no-cache,max-age=5,max-age=9")]);
    assert!(d.must_revalidate);
    assert_eq!(d.max_age, Some(5));
    let d = puffin_client::directives::directives_from_headers(&vec![]);
    assert_eq!((d.no_store, d.must_revalidate, d.max_age, d.etag), (false, false, None, None));
}
