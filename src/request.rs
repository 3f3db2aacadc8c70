//! Requests prepared for a transport, and the responses and errors that come back.
use vstd::prelude::*;
use vstd::utf8::{valid_utf8, decode_utf8};

verus! {

#[verifier::external_type_specification]
#[verifier::external_body]
pub struct ExHyperError(hyper::Error);

#[verifier::external_type_specification]
#[verifier::external_body]
pub struct ExIoError(std::io::Error);

#[verifier::external_type_specification]
#[verifier::external_body]
pub struct ExUtf8Error(std::str::Utf8Error);

/// The HTTP verbs of the store: read, append, replace, merge and delete.
#[derive(Clone, Copy, Debug, PartialEq, Eq, Structural)]
pub enum Method {
    GET,
    POST,
    PUT,
    PATCH,
    DELETE,
}

impl Method {
    /// The verbs that send data.
    pub open spec fn spec_needs_body(&self) -> bool {
        self is POST || self is PUT || self is PATCH
    }

    /// Whether a request of this verb carries a body.
    #[verifier::when_used_as_spec(spec_needs_body)]
    pub fn needs_body(&self) -> (r: bool)
        ensures
            r == self.spec_needs_body(),
    {
        match self {
            Method::POST | Method::PUT | Method::PATCH => true,
            Method::GET | Method::DELETE => false,
        }
    }
}

/// Why a request failed.
#[derive(Debug)]
pub enum ReqErr {
    /// The body was not the JSON that was expected.
    ReqNotJSON,
    /// The body of the response is not UTF-8 text.
    RespNotUTF8(std::str::Utf8Error),
    /// The transport failed.
    Network(hyper::Error),
    /// Reading the response failed.
    Io(std::io::Error),
    /// A verb that sends data was given none; nothing was sent.
    MissingBody,
}

/// A request as it is handed to a transport: a verb, an address and, for the verbs
/// that send data, a body.
pub struct Request {
    method: Method,
    url: String,
    body: Option<String>,
}

impl Request {
    #[verifier::type_invariant]
    spec fn wf(self) -> bool {
        self.method.spec_needs_body() <==> self.body is Some
    }

    pub closed spec fn spec_method(self) -> Method {
        self.method
    }

    pub closed spec fn spec_url(self) -> Seq<char> {
        self.url@
    }

    pub closed spec fn spec_body(self) -> Option<Seq<char>> {
        match self.body {
            Some(b) => Some(b@),
            None => None,
        }
    }

    /// A request of verb `method` to `url`. A verb that sends data needs `body`; the
    /// others send none, and `body` is dropped.
    pub fn new(url: String, method: Method, body: Option<String>) -> (r: Result<Request, ReqErr>)
        ensures
            r is Err <==> method.spec_needs_body() && body is None,
            r is Err ==> r matches Err(ReqErr::MissingBody),
            r matches Ok(q) ==> q.spec_method() == method && q.spec_url() == url@,
            r matches Ok(q) ==> (method.spec_needs_body() ==> q.spec_body() == Some(body.unwrap()@)),
            r matches Ok(q) ==> (!method.spec_needs_body() ==> q.spec_body() is None),
    {
        if method.needs_body() {
            match body {
                Some(b) => Ok(Request { method, url, body: Some(b) }),
                None => Err(ReqErr::MissingBody),
            }
        } else {
            Ok(Request { method, url, body: None })
        }
    }

    /// A request of a verb that sends no data.
    pub fn without_body(url: String, method: Method) -> (r: Request)
        requires
            !method.spec_needs_body(),
        ensures
            r.spec_method() == method,
            r.spec_url() == url@,
            r.spec_body() is None,
    {
        Request { method, url, body: None }
    }

    /// A request of a verb that sends `body`.
    pub fn with_body(url: String, method: Method, body: String) -> (r: Request)
        requires
            method.spec_needs_body(),
        ensures
            r.spec_method() == method,
            r.spec_url() == url@,
            r.spec_body() == Some(body@),
    {
        Request { method, url, body: Some(body) }
    }

    pub fn method(&self) -> (r: Method)
        ensures
            r == self.spec_method(),
    {
        self.method
    }

    pub fn url(&self) -> (r: &str)
        ensures
            r@ == self.spec_url(),
    {
        self.url.as_str()
    }

    /// The body; present exactly for the verbs that send data.
    pub fn body(&self) -> (r: Option<&str>)
        ensures
            r is Some <==> self.spec_method().spec_needs_body(),
            r matches Some(b) ==> self.spec_body() == Some(b@),
    {
        proof {
            use_type_invariant(self);
        }
        match &self.body {
            Some(b) => Some(b.as_str()),
            None => None,
        }
    }
}

/// What the store answered: the body as text and the HTTP status code.
#[derive(Debug)]
pub struct Response {
    pub body: String,
    pub code: u16,
}

/// Relies on `String::from_utf8`: the bytes as text when they are valid UTF-8, else the
/// reason they are not.
#[verifier::external_body]
fn text_of(bytes: Vec<u8>) -> (r: Result<String, std::str::Utf8Error>)
    ensures
        r is Ok <==> valid_utf8(bytes@),
        r matches Ok(s) ==> s@ == decode_utf8(bytes@),
{
    String::from_utf8(bytes).map_err(|e| e.utf8_error())
}

impl Response {
    /// A response from the status code and body bytes that a transport received.
    pub fn from_transport(code: u16, bytes: Vec<u8>) -> (r: Result<Response, ReqErr>)
        ensures
            r is Ok <==> valid_utf8(bytes@),
            r matches Ok(resp) ==> resp.code == code && resp.body@ == decode_utf8(bytes@),
            r is Err ==> r matches Err(ReqErr::RespNotUTF8(_)),
    {
        match text_of(bytes) {
            Ok(body) => Ok(Response { body, code }),
            Err(e) => Err(ReqErr::RespNotUTF8(e)),
        }
    }

    /// Whether the request succeeded; only status 200 (OK) counts as success.
    pub fn is_success(&self) -> (r: bool)
        ensures
            r == (self.code == 200),
    {
        self.code == 200
    }
}

} // verus!
