use vstd::prelude::*;
use vstd::string::{StrSliceExecFns, StringExecFns};
use crate::grammar::{
    find_match, lemma_first_match_some, line_header, quote_scan_end, token_run_end,
};
use crate::headers::{entries_map, HeaderMap};
use crate::text::{chars_of, crlf, decimal, lines_of, push_decimal, span_lines, split_lines};

verus! {

/// The two methods this client sends.
#[derive(Clone, Copy, Debug, PartialEq, Eq, Structural)]
pub enum Operation {
    Get,
    Post,
}

/// The method's name on the request line.
pub open spec fn method_name(op: Operation) -> Seq<char> {
    match op {
        Operation::Get => "GET"@,
        Operation::Post => "POST"@,
    }
}

/// `METHOD resource HTTP/1.1`
pub open spec fn request_line_of(op: Operation, resource: Seq<char>) -> Seq<char> {
    method_name(op) + " "@ + resource + " HTTP/1.1"@
}

/// The product name and version sent as `User-Agent`.
pub open spec fn user_agent() -> Seq<char> {
    "r_url/0.1"@
}

/// The headers every request carries before the caller's own: the fixed five,
/// and for a non-empty body its type and its length in characters.
pub open spec fn default_headers(host: Seq<char>, body: Seq<char>) -> Map<Seq<char>, Seq<char>> {
    let fixed = Map::<Seq<char>, Seq<char>>::empty().insert("Host"@, host).insert(
        "User-Agent"@,
        user_agent(),
    ).insert("Accept-Language"@, "en-us"@).insert("Accept-Encoding"@, "utf-8"@).insert(
        "Connection"@,
        "keep-alive"@,
    );
    if body.len() > 0 {
        fixed.insert("Content-Type"@, "application/json"@).insert(
            "Content-Length"@,
            decimal(body.len()),
        )
    } else {
        fixed
    }
}

/// `name: value\r\n` for each pair, in order.
pub open spec fn header_text(e: Seq<(Seq<char>, Seq<char>)>) -> Seq<char>
    decreases e.len(),
{
    if e.len() == 0 {
        seq![]
    } else {
        header_text(e.drop_last()) + e.last().0 + seq![':', ' '] + e.last().1 + crlf()
    }
}

/// A message on the wire: its first line, its headers, a blank line, and the
/// body, each ended by `\r\n`.
pub open spec fn message_text(
    first: Seq<char>,
    e: Seq<(Seq<char>, Seq<char>)>,
    body: Seq<char>,
) -> Seq<char> {
    first + crlf() + header_text(e) + crlf() + body + crlf()
}

/// One line after the status line: a header when it has the shape
/// `name: value`, else a line of the body.
pub open spec fn absorb_line(
    st: (Map<Seq<char>, Seq<char>>, Seq<char>),
    l: Seq<char>,
) -> (Map<Seq<char>, Seq<char>>, Seq<char>) {
    match line_header(l) {
        Some(kv) => (st.0.insert(kv.0, kv.1), st.1),
        None => (st.0, st.1 + l.push('\n')),
    }
}

pub open spec fn absorb_lines(
    st: (Map<Seq<char>, Seq<char>>, Seq<char>),
    ls: Seq<Seq<char>>,
) -> (Map<Seq<char>, Seq<char>>, Seq<char>)
    decreases ls.len(),
{
    if ls.len() == 0 {
        st
    } else {
        absorb_lines(absorb_line(st, ls[0]), ls.drop_first())
    }
}

/// Status line, headers and body read from the text of a response.
pub open spec fn parse_response(raw: Seq<char>) -> (Seq<char>, Map<Seq<char>, Seq<char>>, Seq<char>) {
    let ls = lines_of(raw);
    if ls.len() == 0 {
        (seq![], Map::empty(), seq![])
    } else {
        let st = absorb_lines((Map::empty(), seq![]), ls.drop_first());
        (ls[0], st.0, st.1)
    }
}

/// `m` holds `k`: with the caller's value when `head` names it, else with `v`.
pub open spec fn carries(
    m: Map<Seq<char>, Seq<char>>,
    head: Map<Seq<char>, Seq<char>>,
    k: Seq<char>,
    v: Seq<char>,
) -> bool {
    &&& m.contains_key(k)
    &&& m[k] == if head.contains_key(k) { head[k] } else { v }
}

/// What a request's headers hold for every host and body: the five fixed
/// headers, and for a non-empty body its type and its length in characters,
/// each with its fixed value unless the caller's headers name it, in which case
/// the caller's value stands; and every header of the caller with its value.
pub proof fn lemma_request_headers(
    host: Seq<char>,
    body: Seq<char>,
    head: Map<Seq<char>, Seq<char>>,
)
    ensures
        ({
            let m = default_headers(host, body).union_prefer_right(head);
            &&& carries(m, head, "Host"@, host)
            &&& carries(m, head, "User-Agent"@, user_agent())
            &&& carries(m, head, "Accept-Language"@, "en-us"@)
            &&& carries(m, head, "Accept-Encoding"@, "utf-8"@)
            &&& carries(m, head, "Connection"@, "keep-alive"@)
            &&& body.len() > 0 ==> carries(m, head, "Content-Type"@, "application/json"@)
            &&& body.len() > 0 ==> carries(m, head, "Content-Length"@, decimal(body.len()))
            &&& forall|k: Seq<char>| #[trigger] head.contains_key(k) ==> m.contains_key(k) && m[k] == head[k]
        }),
{
    reveal_strlit("Host");
    reveal_strlit("User-Agent");
    reveal_strlit("Accept-Language");
    reveal_strlit("Accept-Encoding");
    reveal_strlit("Connection");
    reveal_strlit("Content-Type");
    reveal_strlit("Content-Length");
    assert("Accept-Language"@[7] != "Accept-Encoding"@[7]);
    assert("User-Agent"@[0] != "Connection"@[0]);
    assert("Host"@.len() == 4 && "User-Agent"@.len() == 10 && "Accept-Language"@.len() == 15);
    assert("Accept-Encoding"@.len() == 15 && "Connection"@.len() == 10);
    assert("Content-Type"@.len() == 12 && "Content-Length"@.len() == 14);
    let m = default_headers(host, body).union_prefer_right(head);
    let d = default_headers(host, body);
    assert(d.contains_key("Host"@) && d["Host"@] == host);
    assert(d.contains_key("User-Agent"@) && d["User-Agent"@] == user_agent());
    assert(d.contains_key("Accept-Language"@) && d["Accept-Language"@] == "en-us"@);
    assert(d.contains_key("Accept-Encoding"@) && d["Accept-Encoding"@] == "utf-8"@);
    assert(d.contains_key("Connection"@) && d["Connection"@] == "keep-alive"@);
    if body.len() > 0 {
        assert(d.contains_key("Content-Type"@) && d["Content-Type"@] == "application/json"@);
        assert(d.contains_key("Content-Length"@) && d["Content-Length"@] == decimal(body.len()));
    }
}

/// A request, built once for each call and each redirect.
pub struct Request {
    pub uri: String,
    pub request_line: String,
    pub headers: HeaderMap,
    pub body: String,
}

/// A response as read from the text that came back.
pub struct Response {
    pub status_line: String,
    pub headers: HeaderMap,
    pub body: String,
}

fn push_header_lines(out: &mut String, h: &HeaderMap)
    ensures
        final(out)@ == old(out)@ + header_text(h.pairs()),
{
    proof {
        reveal_strlit(": ");
        reveal_strlit("\r\n");
    }
    let mut i: usize = 0;
    assert(h.pairs().take(0) =~= Seq::<(Seq<char>, Seq<char>)>::empty());
    while i < h.len()
        invariant
            i <= h.pairs().len(),
            out@ == old(out)@ + header_text(h.pairs().take(i as int)),
        decreases h.pairs().len() - i,
    {
        out.append(h.key_at(i).as_str());
        out.append(": ");
        out.append(h.value_at(i).as_str());
        out.append("\r\n");
        proof {
            let t = h.pairs().take(i + 1);
            assert(t.drop_last() =~= h.pairs().take(i as int));
            assert(t.last() == h.pairs()[i as int]);
            reveal_strlit(": ");
            reveal_strlit("\r\n");
            assert(": "@ =~= seq![':', ' ']);
            assert("\r\n"@ =~= crlf());
            assert(out@ =~= old(out)@ + header_text(t));
        }
        i += 1;
    }
    assert(h.pairs().take(i as int) =~= h.pairs());
}

fn message_string(first: &String, h: &HeaderMap, body: &String) -> (r: String)
    ensures
        r@ == message_text(first@, h.pairs(), body@),
{
    proof {
        reveal_strlit("\r\n");
    }
    let mut out = String::new();
    out.append(first.as_str());
    out.append("\r\n");
    push_header_lines(&mut out, h);
    out.append("\r\n");
    out.append(body.as_str());
    out.append("\r\n");
    assert(out@ =~= message_text(first@, h.pairs(), body@));
    out
}

fn slice_chars(v: &Vec<char>, a: usize, b: usize) -> (r: Vec<char>)
    requires
        a <= b <= v.len(),
    ensures
        r@ == v@.subrange(a as int, b as int),
{
    let mut r: Vec<char> = Vec::new();
    let mut k = a;
    while k < b
        invariant
            a <= k <= b <= v.len(),
            r@ == v@.subrange(a as int, k as int),
        decreases b - k,
    {
        r.push(v[k]);
        k += 1;
        assert(r@ =~= v@.subrange(a as int, k as int));
    }
    r
}

impl Request {
    /// The request for `resource` on `host`: the default headers, then the
    /// caller's `head`, which overrides any default of the same name.
    pub fn new(
        host: &str,
        operation: &Operation,
        resource: &String,
        head: &HeaderMap,
        b: &String,
    ) -> (r: Request)
        requires
            head.wf(),
        ensures
            r.uri@ == host@,
            r.request_line@ == request_line_of(*operation, resource@),
            r.headers.wf(),
            r.headers@ == default_headers(host@, b@).union_prefer_right(head@),
            r.body@ == b@,
    {
        let op: &str = match operation {
            Operation::Get => "GET",
            Operation::Post => "POST",
        };
        let mut request_line = String::from_str(op);
        request_line.append(" ");
        request_line.append(resource.as_str());
        request_line.append(" HTTP/1.1");
        let mut headers = HeaderMap::new();
        headers.insert(String::from_str("Host"), String::from_str(host));
        headers.insert(String::from_str("User-Agent"), String::from_str("r_url/0.1"));
        headers.insert(String::from_str("Accept-Language"), String::from_str("en-us"));
        headers.insert(String::from_str("Accept-Encoding"), String::from_str("utf-8"));
        headers.insert(String::from_str("Connection"), String::from_str("keep-alive"));
        let body = b.clone();
        let n = body.as_str().unicode_len();
        if n > 0 {
            headers.insert(String::from_str("Content-Type"), String::from_str("application/json"));
            let mut len_text = String::new();
            push_decimal(&mut len_text, n);
            assert(len_text@ =~= decimal(n as nat));
            headers.insert(String::from_str("Content-Length"), len_text);
        }
        let ghost base = headers@;
        assert(base =~= default_headers(host@, b@));
        let mut i: usize = 0;
        assert(head.pairs().take(0) =~= Seq::<(Seq<char>, Seq<char>)>::empty());
        assert(base.union_prefer_right(entries_map(head.pairs().take(0))) =~= base);
        while i < head.len()
            invariant
                i <= head.pairs().len(),
                headers.wf(),
                headers@ == base.union_prefer_right(entries_map(head.pairs().take(i as int))),
            decreases head.pairs().len() - i,
        {
            headers.insert(head.key_at(i).clone(), head.value_at(i).clone());
            proof {
                let t = head.pairs().take(i + 1);
                assert(t.drop_last() =~= head.pairs().take(i as int));
                assert(headers@ =~= base.union_prefer_right(entries_map(t)));
            }
            i += 1;
        }
        assert(head.pairs().take(i as int) =~= head.pairs());
        assert(request_line@ =~= request_line_of(*operation, resource@));
        Request { uri: String::from_str(host), request_line, headers, body }
    }

    /// The request as it goes on the wire.
    pub fn to_string(&self) -> (r: String)
        ensures
            r@ == message_text(self.request_line@, self.headers.pairs(), self.body@),
    {
        message_string(&self.request_line, &self.headers, &self.body)
    }
}

impl Response {
    /// Reads a response: its first line is the status line; each later line of
    /// the shape `name: value` is a header, and every other line goes to the
    /// body, followed by a line feed.
    pub fn from_str(raw_text: &String) -> (r: Response)
        ensures
            r.headers.wf(),
            (r.status_line@, r.headers@, r.body@) == parse_response(raw_text@),
    {
        let v = chars_of(raw_text.as_str());
        let spans = split_lines(&v);
        let ghost ls = lines_of(v@);
        let mut headers = HeaderMap::new();
        let mut body = String::new();
        if spans.len() == 0 {
            return Response { status_line: String::new(), headers, body };
        }
        let status_line = String::from_str(raw_text.as_str().substring_char(spans[0].0, spans[0].1));
        assert(ls[0] == v@.subrange(spans@[0].0 as int, spans@[0].1 as int));
        let mut j: usize = 1;
        assert(ls.subrange(1, ls.len() as int) =~= ls.drop_first());
        while j < spans.len()
            invariant
                v@ == raw_text@,
                ls == lines_of(v@),
                span_lines(v@, spans@) == ls,
                forall|m: int| 0 <= m < spans@.len() ==> #[trigger] spans@[m].0 <= spans@[m].1 <= v@.len(),
                1 <= j <= spans.len(),
                headers.wf(),
                absorb_lines((headers@, body@), ls.subrange(j as int, ls.len() as int))
                    == absorb_lines((Map::empty(), seq![]), ls.drop_first()),
            decreases spans.len() - j,
        {
            let a = spans[j].0;
            let b = spans[j].1;
            let line = slice_chars(&v, a, b);
            assert(line@ == ls[j as int]);
            let ghost rest = ls.subrange(j as int, ls.len() as int);
            assert(rest[0] == ls[j as int]);
            assert(rest.drop_first() =~= ls.subrange(j + 1, ls.len() as int));
            let ghost h0 = headers@;
            let ghost b0 = body@;
            match find_match(&line, 0) {
                Some(i) => {
                    proof {
                        lemma_first_match_some(line@, 0, i as int);
                    }
                    let e = token_run_end(&line, i);
                    let q = quote_scan_end(&line, e + 1);
                    let key = String::from_str(raw_text.as_str().substring_char(a + i, a + e - 1));
                    let val = String::from_str(raw_text.as_str().substring_char(a + e + 1, a + q));
                    assert(key@ =~= line@.subrange(i as int, e - 1));
                    assert(val@ =~= line@.subrange(e + 1, q as int));
                    headers.insert(key, val);
                    assert(absorb_line((h0, b0), line@) == (headers@, body@));
                },
                None => {
                    proof {
                        reveal_strlit("\n");
                    }
                    body.append(raw_text.as_str().substring_char(a, b));
                    body.append("\n");
                    assert(body@ =~= b0 + line@.push('\n'));
                    assert(absorb_line((h0, b0), line@) == (headers@, body@));
                },
            }
            j += 1;
        }
        assert(ls.subrange(j as int, ls.len() as int) =~= Seq::<Seq<char>>::empty());
        Response { status_line, headers, body }
    }

    /// The response as it goes on the wire.
    pub fn to_string(&self) -> (r: String)
        ensures
            r@ == message_text(self.status_line@, self.headers.pairs(), self.body@),
    {
        message_string(&self.status_line, &self.headers, &self.body)
    }
}

} // verus!
