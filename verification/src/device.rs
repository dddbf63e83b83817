//! The station client: the requests it plans and the replies it decodes.
//!
//! A station listens on a fixed path and understands two queries. The client
//! says what each request holds; the caller posts it and hands the answer to
//! `parse_http_reply`.

use vstd::prelude::*;
use crate::http::{merge_reply, merged_reply, HttpReplyView};
use crate::wire::{
    delimited_field, lemma_varint_bounds, lemma_varint_grows, lemma_varint_prefix, read_delimited,
    varint_at, varint_bytes, WireError, WireType,
};

pub use crate::http::{
    HttpQuery, HttpReply, Identity, LiveModuleReadings, LiveReadings, ModuleCapabilities,
    QueryType, Status,
};

verus! {

/// The reply that the bytes of an answer stand for: a length as a varint, then
/// that many bytes holding the reply's fields. Bytes after those are ignored.
/// `None` where the bytes are not of that form.
pub open spec fn decoded_reply(data: Seq<u8>) -> Option<HttpReplyView> {
    match delimited_field(WireType::LengthDelimited, data) {
        Some((payload, _)) => merged_reply(HttpReplyView::empty(), payload),
        None => None,
    }
}

/// Decodes the bytes of an answer.
pub fn parse_http_reply(data: &[u8]) -> (r: Result<HttpReply, WireError>)
    ensures
        match r {
            Ok(reply) => decoded_reply(data@) == Some(reply@),
            Err(_) => decoded_reply(data@) is None,
        },
{
    let (payload, _) = read_delimited(WireType::LengthDelimited, data)?;
    merge_reply(HttpReply::default(), payload)
}

/// Version of this library, as it is named to a station.
pub const SDK_VERSION: &'static str = "0.1.0";

/// Seconds after which the client gives up on any exchange.
pub const CLIENT_TIMEOUT_SECS: u64 = 10;

/// Seconds after which a single request is given up.
pub const REQUEST_TIMEOUT_SECS: u64 = 5;

/// The user agent that names version `version` of this library.
pub open spec fn user_agent_of(version: Seq<char>) -> Seq<char> {
    "rustfk ("@ + version + ")"@
}

/// The address of the query endpoint of the station at `addr`.
pub open spec fn endpoint_of(addr: Seq<char>) -> Seq<char> {
    "http://"@ + addr + "/fk/v1"@
}

/// The body of the query for live readings.
pub open spec fn readings_query() -> Seq<u8> {
    (HttpQuery { query_type: QueryType::QueryGetReadings.spec_number() }).encoded_length_delimited()
}

/// How a request is made. A station takes posts only.
#[derive(Clone, Copy, Debug, PartialEq, Eq, Structural)]
pub enum Method {
    Post,
}

/// A request to make of a station.
#[derive(Clone, Debug, PartialEq)]
pub struct Request {
    /// How to make it.
    pub method: Method,
    /// Where to send it.
    pub url: String,
    /// The user agent to send it under.
    pub user_agent: String,
    /// Seconds to wait for the answer.
    pub timeout_secs: u64,
    /// The bytes to send; none for a status query.
    pub body: Vec<u8>,
}

/// What every request of one client has in common.
#[derive(Clone, Debug)]
pub struct Client {
    user_agent: String,
    timeout_secs: u64,
    request_timeout_secs: u64,
}

/// What a client holds, as mathematical values.
pub struct ClientView {
    pub user_agent: Seq<char>,
    pub timeout_secs: u64,
    pub request_timeout_secs: u64,
}

impl View for Client {
    type V = ClientView;

    closed spec fn view(&self) -> ClientView {
        ClientView {
            user_agent: self.user_agent@,
            timeout_secs: self.timeout_secs,
            request_timeout_secs: self.request_timeout_secs,
        }
    }
}

impl Client {
    /// A client that names this library and its version as its user agent,
    /// gives up on a request after `REQUEST_TIMEOUT_SECS` and on any exchange
    /// after `CLIENT_TIMEOUT_SECS`.
    pub fn new() -> (r: Client)
        ensures
            r@.user_agent == user_agent_of(SDK_VERSION@),
            r@.timeout_secs == CLIENT_TIMEOUT_SECS,
            r@.request_timeout_secs == REQUEST_TIMEOUT_SECS,
    {
        let mut user_agent = String::from_str("rustfk (");
        user_agent.append(SDK_VERSION);
        user_agent.append(")");
        Client {
            user_agent,
            timeout_secs: CLIENT_TIMEOUT_SECS,
            request_timeout_secs: REQUEST_TIMEOUT_SECS,
        }
    }

    /// The user agent this client sends under.
    pub fn user_agent(&self) -> (r: &str)
        ensures
            r@ == self@.user_agent,
    {
        self.user_agent.as_str()
    }

    /// Seconds after which this client gives up on any exchange.
    pub fn timeout_secs(&self) -> (r: u64)
        ensures
            r == self@.timeout_secs,
    {
        self.timeout_secs
    }

    /// Seconds after which this client gives up on a single request.
    pub fn request_timeout_secs(&self) -> (r: u64)
        ensures
            r == self@.request_timeout_secs,
    {
        self.request_timeout_secs
    }

    /// The request that a query to the station at `addr` with body `body`
    /// makes: a post to the station's endpoint under this client's user agent
    /// and request timeout.
    pub open spec fn request_to(self, addr: Seq<char>, body: Seq<u8>, r: Request) -> bool {
        &&& r.method == Method::Post
        &&& r.url@ == endpoint_of(addr)
        &&& r.user_agent@ == self@.user_agent
        &&& r.timeout_secs == self@.request_timeout_secs
        &&& r.body@ == body
    }

    /// A request to the station at `addr` that carries `body`.
    fn new_request(&self, addr: &str, body: Vec<u8>) -> (r: Request)
        ensures
            self.request_to(addr@, body@, r),
    {
        let mut url = String::from_str("http://");
        url.append(addr);
        url.append("/fk/v1");
        Request {
            method: Method::Post,
            url,
            user_agent: self.user_agent.clone(),
            timeout_secs: self.request_timeout_secs,
            body,
        }
    }

    /// The request that asks the station at `addr` for its status: a post
    /// without a body.
    pub fn query_status(&self, addr: &str) -> (r: Request)
        ensures
            self.request_to(addr@, Seq::empty(), r),
    {
        self.new_request(addr, Vec::new())
    }

    /// The request that asks the station at `addr` for its live readings: a
    /// post of the length-delimited query for them.
    pub fn query_readings(&self, addr: &str) -> (r: Request)
        ensures
            self.request_to(addr@, readings_query(), r),
            r.body@ == seq![2u8, 8u8, 22u8],
    {
        let mut query = HttpQuery::default();
        query.query_type = QueryType::QueryGetReadings.number();
        let encoded = query.encode_length_delimited_to_vec();
        proof {
            lemma_readings_query_bytes();
        }
        self.new_request(addr, encoded)
    }
}

/// The query for live readings is three bytes: the length 2, the key of field
/// 1 as a varint field, and the number 22.
pub proof fn lemma_readings_query_bytes()
    ensures
        readings_query() == seq![2u8, 8u8, 22u8],
{
    let query = HttpQuery { query_type: 22 };
    assert(varint_bytes(8) =~= seq![8u8]);
    assert(varint_bytes(22) =~= seq![22u8]);
    assert(query.encoded() =~= seq![8u8, 22u8]);
    assert(varint_bytes(2) =~= seq![2u8]);
    assert(readings_query() =~= seq![2u8, 8u8, 22u8]);
}

/// An answer cut short is rejected. Where the answer starts with a length
/// that takes `len` bytes and announces `size` bytes of reply, no prefix of
/// the answer with fewer than `len + size` bytes decodes.
pub proof fn lemma_truncated_reply_rejected(data: Seq<u8>, cut: int)
    requires
        varint_at(data) is Some,
        0 <= cut <= data.len(),
        cut < varint_at(data).unwrap().1 + varint_at(data).unwrap().0,
    ensures
        decoded_reply(data.take(cut)) is None,
{
    lemma_varint_prefix(data, cut);
}

/// What follows a reply does not change it: an answer that decodes still
/// decodes, to the same reply, with any bytes put after it.
pub proof fn lemma_reply_ignores_trailing_bytes(data: Seq<u8>, extra: Seq<u8>)
    requires
        decoded_reply(data) is Some,
    ensures
        decoded_reply(data + extra) == decoded_reply(data),
{
    let longer = data + extra;
    let (size, len) = varint_at(data).unwrap();
    lemma_varint_bounds(data);
    lemma_varint_grows(data, extra);
    assert(longer.subrange(len as int, (len + size) as int) =~= data.subrange(
        len as int,
        (len + size) as int,
    ));
}

} // verus!
