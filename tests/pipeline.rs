use puffin_client::cache::{CacheEntry, CacheKey, Directives, Response, ResponseCache};
use puffin_client::pipeline::{Exchange, Pipeline, PipelineError, Received, Request, Step};
use puffin_client::backoff::BackoffPolicy;
use puffin_client::retry::Method;

fn directives(max_age: Option<u64>, no_store: bool, etag: Option<&str>) -> Directives {
    Directives {
        max_age,
        must_revalidate: false,
        no_store,
        etag: etag.map(|t| t.to_string()),
        last_modified: None,
        vary: false,
    }
}

fn response(status: u16, body: &[u8], d: Directives) -> Response {
    Response { status, headers: vec![("content-type".to_string(), "text/html".to_string())], body: body.to_vec(), directives: d }
}

fn request(method: Method, url: &str) -> Request {
    Request { method, url: url.to_string(), headers: vec![("accept".to_string(), "text/html".to_string())] }
}

fn key(method: Method, url: &str) -> CacheKey {
    CacheKey { method, url: url.to_string() }
}

/// Runs one request through the pipeline, answering sends from `replies`
/// in order; returns the result and how many sends were made.
fn run(
    p: &mut Pipeline,
    req: Request,
    now: u64,
    replies: &mut Vec<Received>,
    seen: &mut Vec<Exchange>,
) -> (Result<Response, PipelineError>, usize) {
    if let Some(r) = p.cached(&req, now) {
        return (Ok(r), 0);
    }
    let mut ex = p.begin(req);
    let mut sends = 0;
    loop {
        sends += 1;
        seen.push(Exchange { request: ex.request.clone(), attempt: ex.attempt, revalidating: ex.revalidating });
        let reply = replies.remove(0);
        match p.finish(&mut ex, reply, now, 500) {
            Step::Wait { .. } => continue,
            Step::Done(r) => return (r, sends),
        }
    }
}

#[test]
fn retries_exhausted_on_service_unavailable() {
    let mut p = Pipeline::new(2, BackoffPolicy::standard(), false);
    let mut replies = vec![
        Received::Answered(response(503, b"", directives(None, false, None))),
        Received::Answered(response(503, b"", directives(None, false, None))),
        Received::Answered(response(503, b"", directives(None, false, None))),
    ];
    let mut seen = Vec::new();
    let (r, sends) = run(&mut p, request(Method::Get, "https://pypi.org/simple/flask/"), 100, &mut replies, &mut seen);
    assert_eq!(sends, 3);
    assert!(matches!(r, Err(PipelineError::Status(503))));
    assert_eq!(seen[2].attempt, 2);
}

#[test]
fn fresh_response_is_served_from_cache() {
    let mut p = Pipeline::new(0, BackoffPolicy::standard(), true);
    let url = "https://pypi.org/simple/flask/";
    let mut replies = vec![Received::Answered(response(200, b"<html>flask</html>", directives(Some(60), false, None)))];
    let mut seen = Vec::new();
    let (first, sends) = run(&mut p, request(Method::Get, url), 1000, &mut replies, &mut seen);
    assert_eq!(sends, 1);
    assert_eq!(first.unwrap().body, b"<html>flask</html>".to_vec());
    let stored = p.entry(&key(Method::Get, url)).unwrap();
    assert_eq!(stored.stored_at, 1000);
    let (second, sends) = run(&mut p, request(Method::Get, url), 1059, &mut replies, &mut seen);
    assert_eq!(sends, 0);
    let second = second.unwrap();
    assert_eq!(second.status, 200);
    assert_eq!(second.body, b"<html>flask</html>".to_vec());
    assert_eq!(second.headers, vec![("content-type".to_string(), "text/html".to_string())]);
    assert!(p.cached(&request(Method::Get, url), 1060).is_none());
}

#[test]
fn not_modified_refreshes_stale_entry() {
    let mut p = Pipeline::new(0, BackoffPolicy::standard(), true);
    let url = "https://pypi.org/simple/django/";
    let mut replies = vec![
        Received::Answered(response(200, b"django v1", directives(Some(10), false, Some("\"abc\"")))),
        Received::Answered(response(304, b"", directives(None, false, None))),
    ];
    let mut seen = Vec::new();
    run(&mut p, request(Method::Get, url), 0, &mut replies, &mut seen);
    let (r, sends) = run(&mut p, request(Method::Get, url), 50, &mut replies, &mut seen);
    assert_eq!(sends, 1);
    let sent = &seen[1].request.headers;
    assert!(seen[1].revalidating);
    assert!(sent.contains(&("If-None-Match".to_string(), "\"abc\"".to_string())));
    assert_eq!(r.unwrap().body, b"django v1".to_vec());
    assert_eq!(p.entry(&key(Method::Get, url)).unwrap().stored_at, 50);
    assert!(p.cached(&request(Method::Get, url), 55).is_some());
}

#[test]
fn post_bypasses_cache_and_retry() {
    let mut p = Pipeline::new(3, BackoffPolicy::standard(), true);
    let url = "https://pypi.org/legacy/";
    let mut replies = vec![Received::Answered(response(200, b"ok", directives(Some(600), false, Some("\"x\""))))];
    let mut seen = Vec::new();
    let (r, sends) = run(&mut p, request(Method::Post, url), 0, &mut replies, &mut seen);
    assert_eq!(sends, 1);
    assert!(r.is_ok());
    assert!(p.entry(&key(Method::Post, url)).is_none());
    let mut replies = vec![Received::Answered(response(503, b"", directives(None, false, None)))];
    let (r, sends) = run(&mut p, request(Method::Post, url), 1, &mut replies, &mut seen);
    assert_eq!(sends, 1);
    assert!(matches!(r, Err(PipelineError::Status(503))));
    assert_eq!(seen[1].request.headers.len(), 1);
}

#[test]
fn no_store_response_is_not_kept() {
    let mut p = Pipeline::new(0, BackoffPolicy::standard(), true);
    let url = "https://pypi.org/simple/numpy/";
    let mut replies = vec![
        Received::Answered(response(200, b"a", directives(Some(60), false, None))),
        Received::Answered(response(200, b"b", directives(Some(60), true, None))),
    ];
    let mut seen = Vec::new();
    run(&mut p, request(Method::Get, url), 0, &mut replies, &mut seen);
    assert!(p.entry(&key(Method::Get, url)).is_some());
    let (r, sends) = run(&mut p, request(Method::Head, url), 0, &mut replies, &mut seen);
    assert_eq!(sends, 1);
    assert_eq!(r.unwrap().body, b"b".to_vec());
    assert!(p.entry(&key(Method::Head, url)).is_none());
}

#[test]
fn repeated_fresh_lookups_are_identical() {
    let mut p = Pipeline::new(0, BackoffPolicy::standard(), true);
    let url = "https://pypi.org/simple/attrs/";
    let mut replies = vec![Received::Answered(response(200, b"attrs", directives(Some(300), false, None)))];
    let mut seen = Vec::new();
    run(&mut p, request(Method::Get, url), 0, &mut replies, &mut seen);
    let a = run(&mut p, request(Method::Get, url), 10, &mut replies, &mut seen);
    let b = run(&mut p, request(Method::Get, url), 10, &mut replies, &mut seen);
    assert_eq!(a.1, 0);
    assert_eq!(b.1, 0);
    let (a, b) = (a.0.unwrap(), b.0.unwrap());
    assert_eq!(a.status, b.status);
    assert_eq!(a.headers, b.headers);
    assert_eq!(a.body, b.body);
    assert_eq!(seen.len(), 1);
}

#[test]
fn transport_failures_retry_then_surface() {
    let mut p = Pipeline::new(1, BackoffPolicy::standard(), false);
    let mut replies = vec![Received::Failed { transient: true }, Received::Failed { transient: true }];
    let mut seen = Vec::new();
    let (r, sends) = run(&mut p, request(Method::Get, "https://pypi.org/"), 0, &mut replies, &mut seen);
    assert_eq!(sends, 2);
    assert!(matches!(r, Err(PipelineError::Transport)));
    let mut replies = vec![Received::Failed { transient: false }];
    let (r, sends) = run(&mut p, request(Method::Get, "https://pypi.org/"), 0, &mut replies, &mut seen);
    assert_eq!(sends, 1);
    assert!(matches!(r, Err(PipelineError::Transport)));
}

#[test]
fn client_errors_and_not_implemented_are_not_retried() {
    for code in [404u16, 501] {
        let mut p = Pipeline::new(5, BackoffPolicy::standard(), false);
        let mut replies = vec![Received::Answered(response(code, b"", directives(None, false, None)))];
        let mut seen = Vec::new();
        let (r, sends) = run(&mut p, request(Method::Get, "https://pypi.org/x"), 0, &mut replies, &mut seen);
        assert_eq!(sends, 1);
        assert!(matches!(r, Err(PipelineError::Status(c)) if c == code));
    }
    let mut p = Pipeline::new(1, BackoffPolicy::standard(), false);
    let mut replies = vec![
        Received::Answered(response(429, b"", directives(None, false, None))),
        Received::Answered(response(200, b"done", directives(None, false, None))),
    ];
    let mut seen = Vec::new();
    let (r, sends) = run(&mut p, request(Method::Get, "https://pypi.org/x"), 0, &mut replies, &mut seen);
    assert_eq!(sends, 2);
    assert_eq!(r.unwrap().body, b"done".to_vec());
}

#[test]
fn cache_store_and_lookup_round_trip() {
    let mut c = ResponseCache::new();
    let k = key(Method::Get, "https://pypi.org/simple/six/");
    let resp = response(200, b"six", directives(Some(5), false, Some("\"e\"")));
    c.store(CacheEntry { key: k.clone(), request_headers: vec![], response: resp.duplicate(), stored_at: 7 });
    let got = c.lookup(&k).unwrap();
    assert_eq!(got.response.status, 200);
    assert_eq!(got.response.headers, resp.headers);
    assert_eq!(got.response.body, b"six".to_vec());
    assert_eq!(got.stored_at, 7);
    c.store(CacheEntry { key: k.clone(), request_headers: vec![], response: response(200, b"newer", directives(Some(5), false, None)), stored_at: 8 });
    assert_eq!(c.lookup(&k).unwrap().response.body, b"newer".to_vec());
    assert!(c.lookup(&key(Method::Head, "https://pypi.org/simple/six/")).is_none());
    let taken = c.take(&k).unwrap();
    assert_eq!(taken.stored_at, 8);
    assert!(c.lookup(&k).is_none());
}

#[test]
fn varying_response_answers_only_its_request_headers() {
    let mut p = Pipeline::new(0, BackoffPolicy::standard(), true);
    let url = "https://pypi.org/simple/requests/";
    let mut d = directives(Some(60), false, Some("\"v\""));
    d.vary = true;
    let mut replies = vec![
        Received::Answered(response(200, b"html", d)),
        Received::Answered(response(200, b"json", directives(Some(60), false, None))),
    ];
    let mut seen = Vec::new();
    run(&mut p, request(Method::Get, url), 0, &mut replies, &mut seen);
    let (same, sends) = run(&mut p, request(Method::Get, url), 1, &mut replies, &mut seen);
    assert_eq!(sends, 0);
    assert_eq!(same.unwrap().body, b"html".to_vec());
    let mut other = request(Method::Get, url);
    other.headers = vec![("accept".to_string(), "application/json".to_string())];
    let (r, sends) = run(&mut p, other, 1, &mut replies, &mut seen);
    assert_eq!(sends, 1);
    assert!(!seen[1].revalidating);
    assert_eq!(seen[1].request.headers.len(), 1);
    assert_eq!(r.unwrap().body, b"json".to_vec());
}

#[test]
fn request_no_store_keeps_nothing() {
    let mut p = Pipeline::new(0, BackoffPolicy::standard(), true);
    let url = "https://pypi.org/simple/pip/";
    let mut replies = vec![Received::Answered(response(200, b"pip", directives(Some(60), false, None)))];
    let mut seen = Vec::new();
    let mut req = request(Method::Get, url);
    req.headers.push(("Cache-Control".to_string(), "no-store".to_string()));
    let (r, sends) = run(&mut p, req, 0, &mut replies, &mut seen);
    assert_eq!(sends, 1);
    assert_eq!(r.unwrap().body, b"pip".to_vec());
    assert!(p.entry(&key(Method::Get, url)).is_none());
}
