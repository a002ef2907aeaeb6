//! Decisions of the chat completions and health endpoints: which headers a
//! reply carries, which replies are cached, how a cached reply is served
//! again, and what a failure answers.

use crate::cache::CacheEntry;
use vstd::prelude::*;
use vstd::string::*;
use vstd::utf8::{decode_utf8, encode_utf8, valid_utf8};

verus! {

/// Status of a rejected, rate-limited request.
pub const TOO_MANY_REQUESTS: u16 = 429;

/// Status when no replica could be reached.
pub const BAD_GATEWAY: u16 = 502;

/// Status when a replica's reply could not be read.
pub const INTERNAL_SERVER_ERROR: u16 = 500;

/// A chat message as exchanged with clients.
pub struct ChatMessage {
    pub role: String,
    pub content: String,
}

/// The body of the health endpoint's answer.
pub struct HealthReport {
    pub status: String,
    pub message: String,
}

/// How a reply's body is framed.
#[derive(Debug, Clone, Copy, PartialEq, Eq, Structural)]
pub enum BodyKind {
    /// Server-sent events.
    EventStream,
    /// One JSON document.
    Json,
}

/// A header of a reply.
#[derive(Debug, Clone, Copy, PartialEq, Eq, Structural)]
pub enum ResponseHeader {
    /// `x-prompt-tokens`: the prompt's estimated size.
    PromptTokens(usize),
    /// `content-type` of the body.
    ContentType(BodyKind),
    /// `cache-control: no-cache`.
    NoCache,
    /// `connection: keep-alive`.
    KeepAlive,
}

/// A failure answered to the client.
pub struct ProxyFailure {
    pub status: u16,
    pub message: String,
    /// Whether the message goes out wrapped as `{"error": {"message": ..}}`.
    pub json_body: bool,
}

/// A reply served from the cache.
pub struct CachedReply {
    pub headers: Vec<ResponseHeader>,
    pub body: String,
}

/// The headers of a reply: the prompt size when known, then the framing of
/// a streamed (event stream, no caching, kept alive) or a JSON body.
pub open spec fn response_headers_spec(stream: bool, prompt_tokens: Option<usize>) -> Seq<
    ResponseHeader,
> {
    let size = match prompt_tokens {
        Some(n) => seq![ResponseHeader::PromptTokens(n)],
        None => Seq::empty(),
    };
    if stream {
        size + seq![
            ResponseHeader::ContentType(BodyKind::EventStream),
            ResponseHeader::NoCache,
            ResponseHeader::KeepAlive,
        ]
    } else {
        size + seq![ResponseHeader::ContentType(BodyKind::Json)]
    }
}

/// A status in the 2xx range.
pub open spec fn success_status(status: u16) -> bool {
    200 <= status <= 299
}

/// A cache entry as its prompt size and reply text.
pub open spec fn entry_view(e: CacheEntry) -> (usize, Seq<char>) {
    (e.prompt_tokens, e.response_json@)
}

/// The view of an optional cache entry.
pub open spec fn opt_entry_view(e: Option<CacheEntry>) -> Option<(usize, Seq<char>)> {
    match e {
        Some(x) => Some(entry_view(x)),
        None => None,
    }
}

/// What a JSON reply leaves in the cache: the reply text and prompt size,
/// for a 2xx reply only.
pub open spec fn reply_entry_spec(status: u16, prompt_tokens: usize, text: Seq<char>) -> Option<
    (usize, Seq<char>),
> {
    if success_status(status) {
        Some((prompt_tokens, text))
    } else {
        None
    }
}

/// What a streamed reply leaves in the cache: the text of all relayed
/// bytes and the prompt size, only for a stream that completed (the replica
/// ended it and every chunk reached the client), is non-empty, answered 2xx
/// and is valid UTF-8.
pub open spec fn stream_entry_spec(
    status: u16,
    prompt_tokens: usize,
    bytes: Seq<u8>,
    completed: bool,
) -> Option<(usize, Seq<char>)> {
    if completed && bytes.len() > 0 && success_status(status) && valid_utf8(bytes) {
        Some((prompt_tokens, decode_utf8(bytes)))
    } else {
        None
    }
}

/// The prefix of the message of an unreachable replica.
pub open spec fn communicate_prefix() -> Seq<char> {
    "Failed to communicate: "@
}

/// The headers of a reply.
pub fn response_headers(stream: bool, prompt_tokens: Option<usize>) -> (h: Vec<ResponseHeader>)
    ensures
        h@ == response_headers_spec(stream, prompt_tokens),
{
    let mut h: Vec<ResponseHeader> = Vec::new();
    match prompt_tokens {
        Some(n) => h.push(ResponseHeader::PromptTokens(n)),
        None => {},
    }
    if stream {
        h.push(ResponseHeader::ContentType(BodyKind::EventStream));
        h.push(ResponseHeader::NoCache);
        h.push(ResponseHeader::KeepAlive);
    } else {
        h.push(ResponseHeader::ContentType(BodyKind::Json));
    }
    proof {
        assert(h@ =~= response_headers_spec(stream, prompt_tokens));
    }
    h
}

/// The headers of a reply relayed from a replica: a streamed reply does not
/// carry the prompt size, a JSON reply does.
pub fn upstream_reply_headers(stream: bool, prompt_tokens: usize) -> (h: Vec<ResponseHeader>)
    ensures
        h@ == response_headers_spec(
            stream,
            if stream {
                None
            } else {
                Some(prompt_tokens)
            },
        ),
{
    if stream {
        response_headers(true, None)
    } else {
        response_headers(false, Some(prompt_tokens))
    }
}

/// The name of a header.
pub fn header_name(h: &ResponseHeader) -> (name: &'static str)
    ensures
        name@ == match *h {
            ResponseHeader::PromptTokens(_) => "x-prompt-tokens"@,
            ResponseHeader::ContentType(_) => "content-type"@,
            ResponseHeader::NoCache => "cache-control"@,
            ResponseHeader::KeepAlive => "connection"@,
        },
{
    match h {
        ResponseHeader::PromptTokens(_) => "x-prompt-tokens",
        ResponseHeader::ContentType(_) => "content-type",
        ResponseHeader::NoCache => "cache-control",
        ResponseHeader::KeepAlive => "connection",
    }
}

/// The fixed value of a header; `None` for the prompt size, which is its
/// decimal number.
pub fn fixed_header_value(h: &ResponseHeader) -> (value: Option<&'static str>)
    ensures
        match *h {
            ResponseHeader::PromptTokens(_) => value is None,
            ResponseHeader::ContentType(BodyKind::EventStream) => value matches Some(v) && v@
                == "text/event-stream"@,
            ResponseHeader::ContentType(BodyKind::Json) => value matches Some(v) && v@
                == "application/json"@,
            ResponseHeader::NoCache => value matches Some(v) && v@ == "no-cache"@,
            ResponseHeader::KeepAlive => value matches Some(v) && v@ == "keep-alive"@,
        },
{
    match h {
        ResponseHeader::PromptTokens(_) => None,
        ResponseHeader::ContentType(BodyKind::EventStream) => Some("text/event-stream"),
        ResponseHeader::ContentType(BodyKind::Json) => Some("application/json"),
        ResponseHeader::NoCache => Some("no-cache"),
        ResponseHeader::KeepAlive => Some("keep-alive"),
    }
}

/// Whether a request asks for a streamed reply: only an explicit `true` does.
pub fn wants_stream(stream_field: Option<bool>) -> (stream: bool)
    ensures
        stream == (stream_field == Some(true)),
{
    match stream_field {
        Some(b) => b,
        None => false,
    }
}

/// Whether `status` is in the 2xx range.
pub fn is_success(status: u16) -> (ok: bool)
    ensures
        ok == success_status(status),
{
    200 <= status && status <= 299
}

/// The cache entry for a JSON reply: only a 2xx reply is cached.
pub fn reply_cache_entry(status: u16, prompt_tokens: usize, response_text: &str) -> (entry:
    Option<CacheEntry>)
    ensures
        opt_entry_view(entry) == reply_entry_spec(status, prompt_tokens, response_text@),
{
    if is_success(status) {
        Some(CacheEntry { prompt_tokens, response_json: response_text.to_owned() })
    } else {
        None
    }
}

/// Serves a cached entry again: its body unchanged, with the cached prompt
/// size and the framing the request asks for.
pub fn cached_reply(entry: CacheEntry, stream: bool) -> (reply: CachedReply)
    ensures
        reply.body@ == entry_view(entry).1,
        reply.headers@ == response_headers_spec(stream, Some(entry_view(entry).0)),
{
    let headers = response_headers(stream, Some(entry.prompt_tokens));
    CachedReply { headers, body: entry.response_json }
}

/// The text of `bytes`, through `String::from_utf8`. Claims that the result
/// is `Some` exactly when the bytes are valid UTF-8, holding the characters
/// they encode.
#[verifier::external_body]
fn utf8_text(bytes: Vec<u8>) -> (text: Option<String>)
    ensures
        text is Some <==> valid_utf8(bytes@),
        text matches Some(t) ==> t@ == decode_utf8(bytes@),
{
    String::from_utf8(bytes).ok()
}

/// The bytes of a streamed reply gathered while they are relayed, to be
/// cached once the stream ends.
pub struct StreamCapture {
    buffer: Vec<u8>,
}

impl View for StreamCapture {
    type V = Seq<u8>;

    closed spec fn view(&self) -> Seq<u8> {
        self.buffer@
    }
}

impl StreamCapture {
    /// Nothing gathered yet.
    pub fn new() -> (c: Self)
        ensures
            c@ == Seq::<u8>::empty(),
    {
        StreamCapture { buffer: Vec::new() }
    }

    /// Gathers one chunk.
    pub fn append(&mut self, chunk: &[u8])
        ensures
            final(self)@ == old(self)@ + chunk@,
    {
        let n = chunk.len();
        let mut i: usize = 0;
        while i < n
            invariant
                n == chunk@.len(),
                i <= n,
                self@ == old(self)@ + chunk@.take(i as int),
            decreases n - i,
        {
            self.buffer.push(chunk[i]);
            i += 1;
            proof {
                assert(self@ =~= old(self)@ + chunk@.take(i as int));
            }
        }
        proof {
            assert(chunk@.take(n as int) =~= chunk@);
        }
    }

    /// The bytes gathered so far.
    pub fn bytes(&self) -> (b: &[u8])
        ensures
            b@ == self@,
    {
        self.buffer.as_slice()
    }

    /// The cache entry for the finished stream. `completed` tells whether the
    /// stream ended normally: the replica closed it without a transport error
    /// and the client received every chunk. Only a completed, non-empty
    /// stream of a 2xx reply that is valid UTF-8 is cached, as its full text;
    /// a cut-off transcript never is.
    pub fn into_cache_entry(self, status: u16, prompt_tokens: usize, completed: bool) -> (entry:
        Option<CacheEntry>)
        ensures
            opt_entry_view(entry) == stream_entry_spec(status, prompt_tokens, self@, completed),
    {
        if completed && self.buffer.len() > 0 && is_success(status) {
            match utf8_text(self.buffer) {
                Some(text) => Some(CacheEntry { prompt_tokens, response_json: text }),
                None => None,
            }
        } else {
            None
        }
    }
}

/// The failure answered when no replica could be reached: 502 with the
/// transport's explanation, as a JSON error.
pub fn upstream_failure(detail: &str) -> (f: ProxyFailure)
    ensures
        f.status == BAD_GATEWAY,
        f.message@ == communicate_prefix() + detail@,
        f.json_body,
{
    ProxyFailure {
        status: BAD_GATEWAY,
        message: "Failed to communicate: ".to_owned().concat(detail),
        json_body: true,
    }
}

/// The failure answered when a replica's reply could not be read: 500 with
/// a plain message.
pub fn body_read_failure() -> (f: ProxyFailure)
    ensures
        f.status == INTERNAL_SERVER_ERROR,
        f.message@ == "Failed to extract text"@,
        !f.json_body,
{
    ProxyFailure {
        status: INTERNAL_SERVER_ERROR,
        message: "Failed to extract text".to_owned(),
        json_body: false,
    }
}

/// The health endpoint's answer.
pub fn health_report() -> (r: HealthReport)
    ensures
        r.status@ == "ok"@,
        r.message@ == "inferrust-proxy"@,
{
    HealthReport { status: "ok".to_owned(), message: "inferrust-proxy".to_owned() }
}

/// A 2xx JSON reply that is cached comes back from the cache with the same
/// body and prompt size, framed as the later request asks; a non-2xx reply
/// is never cached.
pub proof fn lemma_json_reply_round_trip(status: u16, prompt_tokens: usize, text: Seq<char>, stream: bool)
    ensures
        success_status(status) ==> (reply_entry_spec(status, prompt_tokens, text) matches Some(e)
            && e.1 == text && response_headers_spec(stream, Some(e.0))[0]
            == ResponseHeader::PromptTokens(prompt_tokens)),
        !success_status(status) ==> reply_entry_spec(status, prompt_tokens, text) is None,
{
}

/// A streamed reply is cached exactly when it completed and is a non-empty,
/// valid UTF-8, 2xx stream; an interrupted stream is never cached; and what
/// the cache serves encodes to exactly the bytes that were relayed.
pub proof fn lemma_stream_round_trip(status: u16, prompt_tokens: usize, bytes: Seq<u8>, completed: bool)
    ensures
        stream_entry_spec(status, prompt_tokens, bytes, completed) is Some <==> (completed
            && bytes.len() > 0 && success_status(status) && valid_utf8(bytes)),
        !completed ==> stream_entry_spec(status, prompt_tokens, bytes, completed) is None,
        stream_entry_spec(status, prompt_tokens, bytes, completed) matches Some(e) ==> e.0
            == prompt_tokens && encode_utf8(e.1) == bytes,
{
    if stream_entry_spec(status, prompt_tokens, bytes, completed) is Some {
        vstd::utf8::decode_utf8_encode_utf8(bytes);
    }
}

/// A JSON reply is cached exactly when its status is in 200..=299; a cached
/// reply is served with the prompt size first, then the framing: event
/// stream, no caching and keep-alive for a streamed request, JSON otherwise.
pub proof fn lemma_cache_policy_and_framing(status: u16, prompt_tokens: usize, text: Seq<char>)
    ensures
        reply_entry_spec(status, prompt_tokens, text) is Some <==> (200 <= status && status <= 299),
        response_headers_spec(true, Some(prompt_tokens)) == seq![
            ResponseHeader::PromptTokens(prompt_tokens),
            ResponseHeader::ContentType(BodyKind::EventStream),
            ResponseHeader::NoCache,
            ResponseHeader::KeepAlive,
        ],
        response_headers_spec(false, Some(prompt_tokens)) == seq![
            ResponseHeader::PromptTokens(prompt_tokens),
            ResponseHeader::ContentType(BodyKind::Json),
        ],
        response_headers_spec(true, None) == seq![
            ResponseHeader::ContentType(BodyKind::EventStream),
            ResponseHeader::NoCache,
            ResponseHeader::KeepAlive,
        ],
{
    assert(response_headers_spec(true, Some(prompt_tokens)) =~= seq![
        ResponseHeader::PromptTokens(prompt_tokens),
        ResponseHeader::ContentType(BodyKind::EventStream),
        ResponseHeader::NoCache,
        ResponseHeader::KeepAlive,
    ]);
    assert(response_headers_spec(false, Some(prompt_tokens)) =~= seq![
        ResponseHeader::PromptTokens(prompt_tokens),
        ResponseHeader::ContentType(BodyKind::Json),
    ]);
    assert(response_headers_spec(true, None) =~= seq![
        ResponseHeader::ContentType(BodyKind::EventStream),
        ResponseHeader::NoCache,
        ResponseHeader::KeepAlive,
    ]);
}

} // verus!
