//! Requests and status codes of HTTP.

use vstd::prelude::*;

verus! {

/// The methods in use.
#[derive(Clone, Copy, Debug, PartialEq, Eq, Structural)]
pub enum Method {
    Get,
    Post,
    Put,
    Delete,
}

/// A request without its body.
#[derive(Clone, Debug)]
pub struct HttpRequest {
    pub method: Method,
    pub url: String,
    /// Names and values, in the order in which they are sent.
    pub headers: Vec<(String, String)>,
}

/// What an [`HttpRequest`] says.
#[verifier::ext_equal]
pub struct HttpRequestModel {
    pub method: Method,
    pub url: Seq<char>,
    pub headers: Seq<(Seq<char>, Seq<char>)>,
}

impl View for HttpRequest {
    type V = HttpRequestModel;

    open spec fn view(&self) -> HttpRequestModel {
        HttpRequestModel {
            method: self.method,
            url: self.url@,
            headers: self.headers@.map_values(|h: (String, String)| (h.0@, h.1@)),
        }
    }
}

impl HttpRequest {
    /// A request with no headers.
    pub fn new(method: Method, url: String) -> (r: Self)
        ensures
            r@ == (HttpRequestModel { method, url: url@, headers: Seq::empty() }),
    {
        let r = HttpRequest { method, url, headers: Vec::new() };
        assert(r@.headers =~= Seq::empty());
        r
    }

    /// The request with one more header.
    pub fn with_header(self, name: &str, value: &str) -> (r: Self)
        ensures
            r@ == (HttpRequestModel { headers: self@.headers.push((name@, value@)), ..self@ }),
    {
        let mut out = self;
        out.headers.push((name.to_owned(), value.to_owned()));
        assert(out@.headers =~= self@.headers.push((name@, value@)));
        out
    }
}

/// A status code that reports success.
pub open spec fn success_code(status: u16) -> bool {
    200 <= status < 300
}

/// Whether a status code reports success.
pub fn is_success(status: u16) -> (r: bool)
    ensures
        r == success_code(status),
{
    200 <= status && status < 300
}

/// The value of the first header of this name.
pub open spec fn header_of(headers: Seq<(Seq<char>, Seq<char>)>, name: Seq<char>) -> Option<Seq<char>>
    decreases headers.len(),
{
    if headers.len() == 0 {
        None
    } else if headers[0].0 == name {
        Some(headers[0].1)
    } else {
        header_of(headers.skip(1), name)
    }
}

/// The first header of a name is found where no header before it has the name.
pub proof fn lemma_header(headers: Seq<(Seq<char>, Seq<char>)>, at: int)
    requires
        0 <= at < headers.len(),
        forall|i: int| 0 <= i < at ==> (#[trigger] headers[i]).0 != headers[at].0,
    ensures
        header_of(headers, headers[at].0) == Some(headers[at].1),
    decreases at,
{
    if at > 0 {
        let rest = headers.skip(1);
        assert(rest[at - 1] == headers[at]);
        assert forall|i: int| 0 <= i < at - 1 implies (#[trigger] rest[i]).0 != rest[at - 1].0 by {
            assert(rest[i] == headers[i + 1]);
        }
        lemma_header(rest, at - 1);
    }
}

/// The codes that report success are those of the third hundred, no more and no
/// less.
pub proof fn law_success_is_the_third_hundred(status: u16)
    ensures
        success_code(status) == (status as int / 100 == 2),
{
}

} // verus!
