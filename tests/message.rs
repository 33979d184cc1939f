use httpc::client::{encode_request, Client, ClientError, Step};
use httpc::headers::{parse_headers, HeaderMap};
use httpc::http::{Operation, Request, Response};
use httpc::resource::{extract_path, get_resource, post_resource};

fn map_of(pairs: &[(&str, &str)]) -> HeaderMap {
    let mut m = HeaderMap::new();
    for (k, v) in pairs {
        m.insert(k.to_string(), v.to_string());
    }
    m
}

fn value(m: &HeaderMap, k: &str) -> Option<String> {
    m.get(k).cloned()
}

#[test]
fn request_has_fixed_headers() {
    for op in [Operation::Get, Operation::Post] {
        let r = Request::new("x.com", &op, &"/a".to_string(), &HeaderMap::new(), &String::new());
        assert_eq!(value(&r.headers, "Host").as_deref(), Some("x.com"));
        assert_eq!(value(&r.headers, "User-Agent").as_deref(), Some("r_url/0.1"));
        assert_eq!(value(&r.headers, "Accept-Language").as_deref(), Some("en-us"));
        assert_eq!(value(&r.headers, "Accept-Encoding").as_deref(), Some("utf-8"));
        assert_eq!(value(&r.headers, "Connection").as_deref(), Some("keep-alive"));
        assert_eq!(value(&r.headers, "Content-Type"), None);
        assert_eq!(value(&r.headers, "Content-Length"), None);
        assert_eq!(r.headers.len(), 5);
        assert_eq!(r.uri, "x.com");
        assert_eq!(r.body, "");
    }
}

#[test]
fn request_line_names_method_and_resource() {
    let g = Request::new("h", &Operation::Get, &"/p?q=1".to_string(), &HeaderMap::new(), &String::new());
    assert_eq!(g.request_line, "GET /p?q=1 HTTP/1.1");
    let p = Request::new("h", &Operation::Post, &"/".to_string(), &HeaderMap::new(), &"{}".to_string());
    assert_eq!(p.request_line, "POST / HTTP/1.1");
}

#[test]
fn content_length_counts_characters() {
    let r = Request::new("h", &Operation::Post, &"/".to_string(), &HeaderMap::new(), &"héllo".to_string());
    assert_eq!(value(&r.headers, "Content-Length").as_deref(), Some("5"));
    assert_eq!(value(&r.headers, "Content-Type").as_deref(), Some("application/json"));
    let long = "a".repeat(1234);
    let r = Request::new("h", &Operation::Post, &"/".to_string(), &HeaderMap::new(), &long);
    assert_eq!(value(&r.headers, "Content-Length").as_deref(), Some("1234"));
}

#[test]
fn user_headers_override_defaults() {
    let head = map_of(&[("Connection", "close"), ("X-Extra", "1")]);
    let r = Request::new("h", &Operation::Post, &"/".to_string(), &head, &"ab".to_string());
    assert_eq!(value(&r.headers, "Connection").as_deref(), Some("close"));
    assert_eq!(value(&r.headers, "X-Extra").as_deref(), Some("1"));
    assert_eq!(value(&r.headers, "Content-Length").as_deref(), Some("2"));
    let head = map_of(&[("Content-Length", "99")]);
    let r = Request::new("h", &Operation::Post, &"/".to_string(), &head, &"ab".to_string());
    assert_eq!(value(&r.headers, "Content-Length").as_deref(), Some("99"));
}

#[test]
fn request_text_layout() {
    let r = Request::new("h", &Operation::Get, &"/".to_string(), &map_of(&[("Host", "o")]), &String::new());
    let t = r.to_string();
    assert!(t.starts_with("GET / HTTP/1.1\r\n"));
    assert!(t.contains("Host: o\r\n"));
    assert!(t.contains("Connection: keep-alive\r\n"));
    assert!(t.ends_with("\r\n\r\n\r\n"));
    assert_eq!(t.matches("\r\n").count(), 1 + 5 + 1 + 1);
}

#[test]
fn encoded_request_is_utf8_of_text() {
    let r = Request::new("h", &Operation::Post, &"/".to_string(), &HeaderMap::new(), &"é".to_string());
    let bytes = encode_request(&r);
    assert_eq!(bytes, r.to_string().into_bytes());
    assert!(bytes.windows(2).any(|w| w == [0xC3, 0xA9]));
}

#[test]
fn response_parse_splits_status_headers_body() {
    let raw = "HTTP/1.1 200 OK\r\nContent-Type: text/plain\r\nX: \"quoted\"\r\n\r\nhello\r\nworld".to_string();
    let r = Response::from_str(&raw);
    assert_eq!(r.status_line, "HTTP/1.1 200 OK");
    assert_eq!(value(&r.headers, "Content-Type").as_deref(), Some("text/plain"));
    assert_eq!(r.headers.len(), 1);
    assert_eq!(r.body, "X: \"quoted\"\n\nhello\nworld\n");
}

#[test]
fn response_parse_empty_text() {
    let r = Response::from_str(&String::new());
    assert_eq!(r.status_line, "");
    assert!(r.headers.is_empty());
    assert_eq!(r.body, "");
}

#[test]
fn response_round_trip() {
    let raw = "HTTP/1.1 404 Not Found\r\nServer: test\r\nContent-Length: 3\r\n\r\nnot\nfound".to_string();
    let r = Response::from_str(&raw);
    let back = Response::from_str(&r.to_string());
    assert_eq!(back.status_line, r.status_line);
    assert_eq!(back.headers.len(), r.headers.len());
    for i in 0..r.headers.len() {
        assert_eq!(back.headers.get(r.headers.key_at(i)), Some(r.headers.value_at(i)));
    }
    assert_eq!(back.body, format!("\n{}\n", r.body));
}

#[test]
fn extract_path_examples() {
    assert_eq!(extract_path("http://x.com/a/b?c=1", Operation::Post), "/a/b");
    assert_eq!(extract_path("http://x.com/a/b?c=1", Operation::Get), "/a/b?c=1");
    assert_eq!(extract_path("http://x.com", Operation::Get), "/");
    assert_eq!(get_resource("http://x.com/p;q"), "/p");
    assert_eq!(post_resource("http://x.com/"), "/");
    assert_eq!(get_resource("http://x.com/a b"), "/a");
    assert_eq!(get_resource("x.com/a"), "/");
}

#[test]
fn header_arg_without_space_yields_nothing() {
    let m = parse_headers("X:1,Y:2");
    assert!(m.is_empty());
    assert!(parse_headers("").is_empty());
}

#[test]
fn header_arg_value_runs_to_quote() {
    let m = parse_headers("X: 1, Y: 2");
    assert_eq!(m.len(), 1);
    assert_eq!(value(&m, "X").as_deref(), Some("1, Y: 2"));
    let m = parse_headers("A: 1\"B: 2\"C: 3");
    assert_eq!(value(&m, "A").as_deref(), Some("1"));
    assert_eq!(value(&m, "B").as_deref(), Some("2"));
    assert_eq!(value(&m, "C").as_deref(), Some("3"));
    let m = parse_headers("K: 1\"K: 2");
    assert_eq!(m.len(), 1);
    assert_eq!(value(&m, "K").as_deref(), Some("2"));
}

fn redirect_response(location: Option<&str>) -> Response {
    let mut raw = String::from("HTTP/1.1 302 Found\r\n");
    if let Some(l) = location {
        raw.push_str(&format!("Location: {}\r\n", l));
    }
    Response::from_str(&raw)
}

#[test]
fn redirect_moves_call_and_keeps_request() {
    let head = map_of(&[("X-A", "1")]);
    let mut c = Client::new("http://a.com/p", Operation::Post, "/p".to_string(), head, "data".to_string()).unwrap();
    let step = c.on_response(&redirect_response(Some("http://b.com/q")));
    assert_eq!(step, Ok(Step::Redirect));
    assert_eq!(c.url(), "http://b.com/q");
    assert_eq!(c.hops(), 1);
    let o = c.prepare().ok().unwrap();
    assert_eq!(o.address, "b.com:8080");
    assert_eq!(o.request.request_line, "POST /p HTTP/1.1");
    assert_eq!(o.request.body, "data");
    assert_eq!(value(&o.request.headers, "X-A").as_deref(), Some("1"));
    assert_eq!(value(&o.request.headers, "Host").as_deref(), Some("b.com"));
}

#[test]
fn non_redirect_finishes() {
    let mut c = Client::new("http://a.com/", Operation::Get, "/".to_string(), HeaderMap::new(), String::new()).unwrap();
    let r = Response::from_str(&"HTTP/1.1 200 OK\r\nLocation: http://b.com\r\n".to_string());
    assert_eq!(c.on_response(&r), Ok(Step::Finished));
    assert_eq!(c.url(), "http://a.com/");
    assert_eq!(c.hops(), 0);
}

#[test]
fn redirect_errors() {
    let mut c = Client::new("http://a.com/", Operation::Get, "/".to_string(), HeaderMap::new(), String::new()).unwrap();
    assert_eq!(c.on_response(&redirect_response(None)), Err(ClientError::MissingLocation));
    assert_eq!(c.on_response(&redirect_response(Some("https://b.com/"))), Err(ClientError::SecureUrl));
    for _ in 0..10 {
        assert_eq!(c.on_response(&redirect_response(Some("http://a.com/"))), Ok(Step::Redirect));
    }
    assert_eq!(c.on_response(&redirect_response(Some("http://a.com/"))), Err(ClientError::TooManyRedirects));
}

#[test]
fn secure_and_hostless_urls_refused() {
    let r = Client::new("https://a.com/", Operation::Get, "/".to_string(), HeaderMap::new(), String::new());
    assert_eq!(r.err(), Some(ClientError::SecureUrl));
    let c = Client::new("mailto:someone", Operation::Get, "/".to_string(), HeaderMap::new(), String::new()).unwrap();
    assert_eq!(c.prepare().err(), Some(ClientError::NoHost));
    let c = Client::new("not a url", Operation::Get, "/".to_string(), HeaderMap::new(), String::new()).unwrap();
    assert_eq!(c.prepare().err(), Some(ClientError::NoHost));
}
