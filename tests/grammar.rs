use httpc::headers::parse_headers;
use httpc::http::{Operation, Response};
use httpc::resource::extract_path;
use regex::Regex;

const SAMPLES: &[&str] = &[
    "",
    "X:1,Y:2",
    "X: 1, Y: 2",
    "Content-Type: text/html",
    "a: b\"c: d\"e: f",
    ": x",
    "k:: v",
    "k: \"v\"",
    "  lead: space",
    "k:\tv",
    "k:\u{3000}v w",
    "k: ",
    "\"q\": v",
    "a:b: c",
    "x y: z",
    "k: v\"",
    "é: ü",
    "k:\u{85}v",
];

#[test]
fn header_arg_agrees_with_pattern() {
    let re = Regex::new("([^\\s\"]+)(:\\s)([^\"]+)").unwrap();
    for s in SAMPLES {
        let m = parse_headers(s);
        let mut expected: Vec<(String, String)> = Vec::new();
        for cap in re.captures_iter(s) {
            let k = cap.get(1).unwrap().as_str().to_string();
            let v = cap.get(3).unwrap().as_str().to_string();
            expected.retain(|(ek, _)| *ek != k);
            expected.push((k, v));
        }
        assert_eq!(m.len(), expected.len(), "{:?}", s);
        for (k, v) in &expected {
            assert_eq!(m.get(k), Some(v), "{:?}", s);
        }
    }
}

#[test]
fn response_lines_agree_with_pattern() {
    let re = Regex::new("([^\\s\"]+)(:\\s)([^\"]+)").unwrap();
    for s in SAMPLES {
        let raw = format!("HTTP/1.1 200 OK\r\n{}\r\n", s);
        let r = Response::from_str(&raw);
        match re.captures(s) {
            Some(cap) => {
                assert_eq!(r.headers.len(), 1, "{:?}", s);
                assert_eq!(r.headers.key_at(0), cap.get(1).unwrap().as_str(), "{:?}", s);
                assert_eq!(r.headers.value_at(0), cap.get(3).unwrap().as_str(), "{:?}", s);
                assert_eq!(r.body, "");
            }
            None => {
                assert!(r.headers.is_empty(), "{:?}", s);
                assert_eq!(r.body, format!("{}\n", s));
            }
        }
    }
}

#[test]
fn paths_agree_with_pattern() {
    let get = Regex::new(r"^[^/]+//[^/]+/([^\s;]+).*").unwrap();
    let post = Regex::new(r"^[^/]+//[^/]+/([^\s;?]+).*").unwrap();
    let urls = [
        "http://x.com/a/b?c=1",
        "http://x.com",
        "http://x.com/",
        "http://x.com/a;b",
        "http:///a",
        "/x//y/z",
        "a//b/c d",
        "http://x.com/?q",
        "ftp://h/é",
        "h//x/\u{2003}y",
    ];
    for u in urls {
        for (op, re) in [(Operation::Get, &get), (Operation::Post, &post)] {
            let want = match re.captures(u) {
                Some(c) => format!("/{}", c.get(1).unwrap().as_str()),
                None => "/".to_string(),
            };
            assert_eq!(extract_path(u, op), want, "{:?}", u);
        }
    }
}
