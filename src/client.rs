use vstd::prelude::*;
use vstd::string::StringExecFns;
use encoding::Encoding;
use crate::headers::HeaderMap;
use crate::http::{default_headers, message_text, request_line_of, Operation, Request, Response};
use crate::text::{contains_text, has_infix};

verus! {

/// Redirects followed for one call before it gives up.
pub const MAX_REDIRECTS: usize = 10;

/// Why a call cannot go on.
#[derive(Clone, Copy, Debug, PartialEq, Eq, Structural)]
pub enum ClientError {
    /// The URL asks for secure HTTP, which this client does not speak.
    SecureUrl,
    /// The URL names no host.
    NoHost,
    /// A redirect came without a `Location` header.
    MissingLocation,
    /// More redirects came than `MAX_REDIRECTS`.
    TooManyRedirects,
}

/// What a call does after a response.
#[derive(Clone, Copy, Debug, PartialEq, Eq, Structural)]
pub enum Step {
    /// The response is the answer.
    Finished,
    /// The call goes on at the new location.
    Redirect,
}

/// The host that the URL parser finds in a URL, if any.
pub uninterp spec fn url_host(url: Seq<char>) -> Option<Seq<char>>;

/// Relies on `url::Url::parse` and `Url::host_str`: the host of the URL, or
/// `None` when the URL does not parse or has no host.
#[verifier::external_body]
fn parse_host(url: &str) -> (r: Option<String>)
    ensures
        match r {
            Some(h) => url_host(url@) == Some(h@),
            None => url_host(url@) is None,
        },
{
    match url::Url::parse(url) {
        Ok(u) => u.host_str().map(String::from),
        Err(_) => None,
    }
}

/// Relies on `encoding::all::UTF_8.encode` with `EncoderTrap::Strict`: its
/// UTF-8 encoder copies the bytes of the string and never reports an error.
#[verifier::external_body]
fn utf8_strict(s: &str) -> (r: Result<Vec<u8>, String>)
    ensures
        r is Ok,
        r is Ok ==> r->Ok_0@ == vstd::utf8::encode_utf8(s@),
{
    encoding::all::UTF_8.encode(s, encoding::EncoderTrap::Strict).map_err(String::from)
}

/// The bytes that carry a request.
pub fn encode_request(request: &Request) -> (r: Vec<u8>)
    ensures
        r@ == vstd::utf8::encode_utf8(
            message_text(request.request_line@, request.headers.pairs(), request.body@),
        ),
{
    let text = request.to_string();
    match utf8_strict(text.as_str()) {
        Ok(b) => b,
        Err(_) => Vec::new(),
    }
}

/// Where a request goes, and what it is.
pub struct Outgoing {
    /// `host:port` of the server.
    pub address: String,
    pub request: Request,
}

/// One call: the URL it is at now, and what every request of it carries.
pub struct Client {
    url: String,
    operation: Operation,
    resource: String,
    headers: HeaderMap,
    body: String,
    hops: usize,
}

impl Client {
    pub closed spec fn spec_url(&self) -> Seq<char> {
        self.url@
    }

    pub closed spec fn spec_operation(&self) -> Operation {
        self.operation
    }

    pub closed spec fn spec_resource(&self) -> Seq<char> {
        self.resource@
    }

    pub closed spec fn spec_headers(&self) -> Map<Seq<char>, Seq<char>> {
        self.headers@
    }

    pub closed spec fn spec_body(&self) -> Seq<char> {
        self.body@
    }

    pub closed spec fn spec_hops(&self) -> nat {
        self.hops as nat
    }

    pub closed spec fn wf(&self) -> bool {
        self.headers.wf() && self.hops <= MAX_REDIRECTS
    }

    /// A call to `url`; a URL that asks for secure HTTP is refused.
    pub fn new(
        url: &str,
        operation: Operation,
        resource: String,
        headers: HeaderMap,
        body: String,
    ) -> (r: Result<Client, ClientError>)
        requires
            headers.wf(),
        ensures
            has_infix(url@, "https"@) <==> r == Err::<Client, ClientError>(ClientError::SecureUrl),
            !has_infix(url@, "https"@) ==> r is Ok,
            r matches Ok(c) ==> {
                &&& c.wf()
                &&& c.spec_url() == url@
                &&& c.spec_operation() == operation
                &&& c.spec_resource() == resource@
                &&& c.spec_headers() == headers@
                &&& c.spec_body() == body@
                &&& c.spec_hops() == 0
            },
    {
        if contains_text(url, "https") {
            return Err(ClientError::SecureUrl);
        }
        Ok(Client { url: String::from_str(url), operation, resource, headers, body, hops: 0 })
    }

    /// The URL the call is at.
    pub fn url(&self) -> (r: &String)
        ensures
            r@ == self.spec_url(),
    {
        &self.url
    }

    /// Redirects followed so far.
    pub fn hops(&self) -> (r: usize)
        ensures
            r == self.spec_hops(),
    {
        self.hops
    }

    /// The next request: to port 8080 of the host of the current URL.
    pub fn prepare(&self) -> (r: Result<Outgoing, ClientError>)
        requires
            self.wf(),
        ensures
            match url_host(self.spec_url()) {
                None => r == Err::<Outgoing, ClientError>(ClientError::NoHost),
                Some(h) => r matches Ok(o) && {
                    &&& o.address@ == h + ":8080"@
                    &&& o.request.uri@ == h
                    &&& o.request.request_line@ == request_line_of(
                        self.spec_operation(),
                        self.spec_resource(),
                    )
                    &&& o.request.headers.wf()
                    &&& o.request.headers@ == default_headers(h, self.spec_body()).union_prefer_right(
                        self.spec_headers(),
                    )
                    &&& o.request.body@ == self.spec_body()
                },
            },
    {
        match parse_host(self.url.as_str()) {
            None => Err(ClientError::NoHost),
            Some(host) => {
                let request = Request::new(
                    host.as_str(),
                    &self.operation,
                    &self.resource,
                    &self.headers,
                    &self.body,
                );
                let mut address = host;
                address.append(":8080");
                Ok(Outgoing { address, request })
            },
        }
    }

    /// Decides what follows a response. A status line holding `302` is a
    /// redirect: the call moves to the `Location` header's URL and keeps its
    /// operation, resource, headers and body. A redirect fails without a
    /// location, after `MAX_REDIRECTS` of them, or to secure HTTP.
    pub fn on_response(&mut self, response: &Response) -> (r: Result<Step, ClientError>)
        requires
            old(self).wf(),
            response.headers.wf(),
        ensures
            final(self).wf(),
            final(self).spec_operation() == old(self).spec_operation(),
            final(self).spec_resource() == old(self).spec_resource(),
            final(self).spec_headers() == old(self).spec_headers(),
            final(self).spec_body() == old(self).spec_body(),
            !has_infix(response.status_line@, "302"@) ==> r == Ok::<Step, ClientError>(Step::Finished)
                && final(self).spec_url() == old(self).spec_url() && final(self).spec_hops()
                == old(self).spec_hops(),
            has_infix(response.status_line@, "302"@) ==> {
                let loc = "Location"@;
                if !response.headers@.contains_key(loc) {
                    r == Err::<Step, ClientError>(ClientError::MissingLocation)
                } else if old(self).spec_hops() >= MAX_REDIRECTS {
                    r == Err::<Step, ClientError>(ClientError::TooManyRedirects)
                } else if has_infix(response.headers@[loc], "https"@) {
                    r == Err::<Step, ClientError>(ClientError::SecureUrl)
                } else {
                    &&& r == Ok::<Step, ClientError>(Step::Redirect)
                    &&& final(self).spec_url() == response.headers@[loc]
                    &&& final(self).spec_hops() == old(self).spec_hops() + 1
                }
            },
    {
        if !contains_text(response.status_line.as_str(), "302") {
            return Ok(Step::Finished);
        }
        match response.headers.get("Location") {
            None => Err(ClientError::MissingLocation),
            Some(location) => {
                if self.hops >= MAX_REDIRECTS {
                    Err(ClientError::TooManyRedirects)
                } else if contains_text(location.as_str(), "https") {
                    Err(ClientError::SecureUrl)
                } else {
                    self.url = location.clone();
                    self.hops = self.hops + 1;
                    Ok(Step::Redirect)
                }
            },
        }
    }
}

} // verus!
