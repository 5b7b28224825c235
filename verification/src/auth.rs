//! Who may publish a stream.

use crate::config::ApiConfig;
use crate::http::{
    header_of, is_success, lemma_header, success_code, HttpRequest, HttpRequestModel, Method,
};
use crate::writer;
use vstd::prelude::*;

verus! {

/// The answer of the authentication service.
#[derive(Debug)]
pub struct BaseStreamUserResponse {
    status: String,
    message: String,
    pub(crate) data: StreamUserResponse,
    timestamp: String,
}

/// Who publishes, and since when.
#[derive(Debug)]
pub struct StreamUserResponse {
    username: String,
    start_at: String,
}

impl StreamUserResponse {
    /// The name of the user.
    pub closed spec fn user(self) -> Seq<char> {
        self.username@
    }

    /// When the stream starts.
    pub closed spec fn start(self) -> Seq<char> {
        self.start_at@
    }

    /// A user whose stream starts at `start_at`.
    pub fn new(username: String, start_at: String) -> (r: Self)
        ensures
            r.user() == username@,
            r.start() == start_at@,
    {
        StreamUserResponse { username, start_at }
    }

    /// The name of the user.
    pub fn get_username(&self) -> (r: String)
        ensures
            r@ == self.user(),
    {
        self.username.clone()
    }

    /// When the stream starts.
    pub fn get_start_time(&self) -> (r: String)
        ensures
            r@ == self.start(),
    {
        self.start_at.clone()
    }
}

impl BaseStreamUserResponse {
    /// The user.
    pub closed spec fn user_data(self) -> StreamUserResponse {
        self.data
    }

    /// An answer about a user.
    pub fn new(
        status: String,
        message: String,
        data: StreamUserResponse,
        timestamp: String,
    ) -> (r: Self)
        ensures
            r.user_data() == data,
    {
        BaseStreamUserResponse { status, message, data, timestamp }
    }

    /// The user.
    pub fn data(&self) -> (r: &StreamUserResponse)
        ensures
            *r == self.user_data(),
    {
        &self.data
    }
}

/// A request about the stream that a key is for.
pub open spec fn stream_request(
    method: Method,
    host: Seq<char>,
    stream_key: Seq<char>,
) -> HttpRequestModel {
    HttpRequestModel {
        method,
        url: host + "/stream"@,
        headers: seq![("X-Stream-Key"@, stream_key)],
    }
}

fn request(method: Method, host: &str, stream_key: &str) -> (r: HttpRequest)
    ensures
        r@ == stream_request(method, host@, stream_key@),
{
    let url = writer::join2(host, "/stream");
    let r = HttpRequest::new(method, url).with_header("X-Stream-Key", stream_key);
    assert(r@.headers =~= seq![("X-Stream-Key"@, stream_key@)]);
    r
}

/// The request that asks whether a key may publish.
pub fn get_authentication(stream_key: &str, api_config: &ApiConfig) -> (r: HttpRequest)
    ensures
        r@ == stream_request(Method::Post, api_config.host@, stream_key@),
{
    request(Method::Post, api_config.host.as_str(), stream_key)
}

/// The request that reports the end of a stream.
pub fn stop_authentication(stream_key: &str, api_config: &ApiConfig) -> (r: HttpRequest)
    ensures
        r@ == stream_request(Method::Delete, api_config.host@, stream_key@),
{
    request(Method::Delete, api_config.host.as_str(), stream_key)
}

/// What the status code of an answer says: the key is known where it is one of
/// success.
pub fn authentication_result(status: u16) -> (r: Result<(), String>)
    ensures
        match r {
            Ok(_) => success_code(status),
            Err(error) => !success_code(status) && error@ == "stream key is not allowed"@,
        },
{
    if is_success(status) {
        Ok(())
    } else {
        Err("stream key is not allowed".to_owned())
    }
}

/// The name that a stream goes by: the user and the time of the start.
pub fn authenticate_and_get_stream_id(response: &BaseStreamUserResponse) -> (r: String)
    ensures
        r@ == response.user_data().user() + "/"@ + response.user_data().start(),
{
    writer::join3(response.data.username.as_str(), "/", response.data.start_at.as_str())
}

/// A request about a stream goes to the service at its host and carries the key
/// of the stream, and nothing else.
pub proof fn law_request_carries_key(method: Method, host: Seq<char>, stream_key: Seq<char>)
    ensures
        ({
            let sent = stream_request(method, host, stream_key);
            &&& sent.method == method
            &&& sent.url.take(host.len() as int) == host
            &&& sent.url.skip(host.len() as int) == "/stream"@
            &&& sent.headers.len() == 1
            &&& header_of(sent.headers, "X-Stream-Key"@) == Some(stream_key)
        }),
{
    let sent = stream_request(method, host, stream_key);
    assert(sent.url.take(host.len() as int) =~= host);
    assert(sent.url.skip(host.len() as int) =~= "/stream"@);
    lemma_header(sent.headers, 0);
}

} // verus!
