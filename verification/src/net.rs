//! Network-facing decision logic: connection admission accounting, request
//! limit checks, error-to-status mapping, WebSocket message classification,
//! and URI assembly for upstream forwarding. The sockets, the HTTP wire
//! handling and the task runtime live in the surrounding program; this
//! module holds the rules they apply.

use vstd::prelude::*;
use vstd::utf8::{encode_utf8, valid_utf8};
use crate::errors::OuliError;
use crate::pairsort::SpecPair;
use crate::fingerprint::str_pairs_bytes;
use vstd::string::StrSliceExecFns;
use crate::strutil::{bytes_to_string, lemma_ascii_bytes_valid_utf8};

verus! {

/// Maximum number of concurrent connections.
pub const MAX_CONNECTIONS: usize = 4096;

/// Connection setup timeout, milliseconds.
pub const CONNECT_TIMEOUT_MS: u64 = 1000;

/// Graceful shutdown timeout, milliseconds.
pub const SHUTDOWN_TIMEOUT_MS: u64 = 5000;

/// Connection admission accounting: a bounded count of active connections.
/// The program pairs this with its semaphore; the accept/reject decision is
/// made here.
#[derive(Debug, Clone)]
pub struct ConnectionPool {
    active: usize,
    max_connections: usize,
}

impl ConnectionPool {
    /// Number of connections currently admitted.
    pub closed spec fn spec_active(self) -> usize {
        self.active
    }

    /// The admission bound.
    pub closed spec fn spec_max(self) -> usize {
        self.max_connections
    }

    /// Pool invariant: never more active connections than the bound.
    pub open spec fn wf(self) -> bool {
        self.spec_active() <= self.spec_max()
    }

    /// A pool admitting up to `max_connections` connections. The bound must
    /// be positive.
    pub fn new(max_connections: usize) -> (r: Self)
        requires
            max_connections > 0,
        ensures
            r.wf(),
            r.spec_active() == 0,
            r.spec_max() == max_connections,
    {
        ConnectionPool { active: 0, max_connections }
    }

    /// True while another connection may be admitted.
    pub fn can_accept(&self) -> (r: bool)
        ensures
            r == (self.spec_active() < self.spec_max()),
    {
        self.active < self.max_connections
    }

    /// Tries to admit a connection; true exactly when a slot was free.
    pub fn try_acquire(&mut self) -> (r: bool)
        requires
            old(self).wf(),
        ensures
            final(self).wf(),
            r == (old(self).spec_active() < old(self).spec_max()),
            r ==> final(self).spec_active() == old(self).spec_active() + 1,
            !r ==> final(self).spec_active() == old(self).spec_active(),
            final(self).spec_max() == old(self).spec_max(),
    {
        if self.active < self.max_connections {
            self.active = self.active + 1;
            true
        } else {
            false
        }
    }

    /// Releases one admitted connection.
    pub fn release(&mut self)
        requires
            old(self).wf(),
        ensures
            final(self).wf(),
            final(self).spec_active() == if old(self).spec_active() > 0 {
                old(self).spec_active() - 1
            } else {
                0
            },
            final(self).spec_max() == old(self).spec_max(),
    {
        if self.active > 0 {
            self.active = self.active - 1;
        }
    }

    /// Number of active connections.
    pub fn active_connections(&self) -> (r: usize)
        ensures
            r == self.spec_active(),
    {
        self.active
    }

    /// The admission bound.
    pub fn max_connections(&self) -> (r: usize)
        ensures
            r == self.spec_max(),
    {
        self.max_connections
    }
}

/// Decision logic of the HTTP wire handler.
pub struct HttpHandler;

impl HttpHandler {
    /// The HTTP status an error is reported with: 404 for missing
    /// recordings, 413 for oversized payloads, 500 otherwise.
    pub fn error_status(error: &OuliError) -> (r: u16)
        ensures
            (error is RecordingNotFound || error is FileNotFound) ==> r == 404,
            (error is DataTooLarge) ==> r == 413,
            !(error is RecordingNotFound || error is FileNotFound || error is DataTooLarge)
                ==> r == 500,
    {
        match error {
            OuliError::RecordingNotFound(_) => 404,
            OuliError::FileNotFound(_) => 404,
            OuliError::DataTooLarge { .. } => 413,
            _ => 500,
        }
    }

    /// Admission check on a parsed request: the declared content length must
    /// not exceed the size limit and the header count must stay within
    /// bounds.
    pub fn validate_limits(
        content_length: Option<usize>,
        header_count: usize,
        max_size: usize,
        max_headers: usize,
    ) -> (r: Result<(), OuliError>)
        ensures
            r is Ok <==> ((content_length matches Some(l) ==> l <= max_size) && header_count
                <= max_headers),
            content_length matches Some(l) ==> (l > max_size ==> (r matches Err(
                OuliError::DataTooLarge { size, limit } ) && size == l && limit == max_size)),
    {
        match content_length {
            Some(l) => {
                if l > max_size {
                    return Err(OuliError::DataTooLarge { size: l, limit: max_size });
                }
            },
            None => {},
        }
        if header_count > max_headers {
            return Err(OuliError::Other("too many headers".to_owned()));
        }
        Ok(())
    }
}

/// A WebSocket message, as the core sees it.
#[derive(Debug, Clone)]
pub enum WsMessage {
    /// Text frame.
    Text(String),
    /// Binary frame.
    Binary(Vec<u8>),
    /// Ping frame.
    Ping(Vec<u8>),
    /// Pong frame.
    Pong(Vec<u8>),
    /// Close frame.
    Close,
}

/// The payload bytes of a message as they are stored: UTF-8 for text
/// frames, the raw payload for binary, ping and pong frames, nothing for
/// close frames.
pub open spec fn ws_payload(msg: WsMessage) -> Seq<u8> {
    match msg {
        WsMessage::Text(t) => encode_utf8(t@),
        WsMessage::Binary(d) => d@,
        WsMessage::Ping(d) => d@,
        WsMessage::Pong(d) => d@,
        WsMessage::Close => Seq::<u8>::empty(),
    }
}

/// Decision logic of the WebSocket handler.
pub struct WebSocketHandler;

impl WebSocketHandler {
    /// Only data frames are recorded.
    pub fn should_record(msg: &WsMessage) -> (r: bool)
        ensures
            r == (msg is Text || msg is Binary),
    {
        match msg {
            WsMessage::Text(_) => true,
            WsMessage::Binary(_) => true,
            _ => false,
        }
    }

    /// The payload bytes of a message, for storage.
    pub fn message_to_bytes(msg: &WsMessage) -> (r: Vec<u8>)
        ensures
            r@ == ws_payload(*msg),
    {
        match msg {
            WsMessage::Text(t) => t.as_str().as_bytes_vec(),
            WsMessage::Binary(d) => vstd::slice::slice_to_vec(d.as_slice()),
            WsMessage::Ping(d) => vstd::slice::slice_to_vec(d.as_slice()),
            WsMessage::Pong(d) => vstd::slice::slice_to_vec(d.as_slice()),
            WsMessage::Close => Vec::new(),
        }
    }
}

/// A request to forward upstream.
#[derive(Debug, Clone)]
pub struct ForwardRequest {
    /// HTTP method.
    pub method: String,
    /// Target host.
    pub target_host: String,
    /// Target port.
    pub target_port: u16,
    /// Request path.
    pub path: String,
    /// Query parameters.
    pub query: Vec<(String, String)>,
    /// Request headers.
    pub headers: Vec<(String, String)>,
    /// Request body.
    pub body: Vec<u8>,
}

/// The response of a forwarded request.
#[derive(Debug, Clone)]
pub struct ForwardedResponse {
    /// HTTP status code.
    pub status: u16,
    /// Response headers.
    pub headers: Vec<(String, String)>,
    /// Response body.
    pub body: Vec<u8>,
}

/// A byte that percent encoding passes through unchanged: ASCII
/// alphanumerics and `-`, `.`, `_`, `~`.
pub open spec fn is_url_safe(b: u8) -> bool {
    ||| (48 <= b && b <= 57)
    ||| (65 <= b && b <= 90)
    ||| (97 <= b && b <= 122)
    ||| b == 45
    ||| b == 46
    ||| b == 95
    ||| b == 126
}

/// Uppercase hex digit of a value below 16.
pub open spec fn hex_digit_upper(d: u8) -> u8 {
    if d < 10 {
        (48 + d) as u8
    } else {
        (55 + d) as u8
    }
}

/// Percent encoding of a byte string: safe bytes unchanged, every other
/// byte as `%` and two uppercase hex digits.
pub open spec fn percent_encode(bs: Seq<u8>) -> Seq<u8>
    decreases bs.len(),
{
    if bs.len() == 0 {
        Seq::<u8>::empty()
    } else {
        (if is_url_safe(bs[0]) {
            seq![bs[0]]
        } else {
            seq![37u8, hex_digit_upper(bs[0] / 16), hex_digit_upper(bs[0] % 16)]
        }) + percent_encode(bs.drop_first())
    }
}

/// Relies on `urlencoding::encode`: percent-encodes every byte except ASCII
/// alphanumerics and `-`, `.`, `_`, `~`, with uppercase hex digits.
#[verifier::external_body]
pub(crate) fn url_encode(s: &str) -> (r: String)
    ensures
        encode_utf8(r@) == percent_encode(encode_utf8(s@)),
{
    urlencoding::encode(s).into_owned()
}

/// Percent-encoded output is all ASCII.
proof fn lemma_percent_encode_ascii(bs: Seq<u8>)
    ensures
        forall|i: int| 0 <= i < percent_encode(bs).len() ==> (#[trigger] percent_encode(bs)[i])
            <= 0x7f,
    decreases bs.len(),
{
    if bs.len() > 0 {
        lemma_percent_encode_ascii(bs.drop_first());
        let head: Seq<u8> = if is_url_safe(bs[0]) {
            seq![bs[0]]
        } else {
            seq![37u8, hex_digit_upper(bs[0] / 16), hex_digit_upper(bs[0] % 16)]
        };
        assert forall|i: int| 0 <= i < percent_encode(bs).len() implies (#[trigger] percent_encode(
            bs,
        )[i]) <= 0x7f by {
            if i < head.len() {
                assert(percent_encode(bs)[i] == head[i]);
            } else {
                assert(percent_encode(bs)[i] == percent_encode(bs.drop_first())[i - head.len()]);
            }
        }
    }
}

/// Decimal digits of a number, most significant first; empty for zero.
pub open spec fn dec_digits(n: nat) -> Seq<u8>
    decreases n,
{
    if n == 0 {
        Seq::<u8>::empty()
    } else {
        dec_digits(n / 10) + seq![(48 + (n % 10)) as u8]
    }
}

/// The decimal representation of a port number.
pub open spec fn spec_decimal(n: u16) -> Seq<u8> {
    if n == 0 {
        seq![48u8]
    } else {
        dec_digits(n as nat)
    }
}

/// Appends the decimal digits of `n` (for `n > 0`).
fn push_dec_digits(buf: &mut Vec<u8>, n: u16)
    ensures
        final(buf)@ == old(buf)@ + dec_digits(n as nat),
    decreases n,
{
    if n == 0 {
        proof {
            assert(old(buf)@ + dec_digits(0) =~= old(buf)@);
        }
    } else {
        push_dec_digits(buf, n / 10);
        buf.push(48 + (n % 10) as u8);
        proof {
            assert(old(buf)@ + dec_digits(n as nat) =~= (old(buf)@ + dec_digits((n / 10) as nat)).push(
                (48 + (n as nat % 10)) as u8,
            ));
        }
    }
}

/// Decimal digits are ASCII.
proof fn lemma_dec_digits_ascii(n: nat)
    ensures
        forall|i: int| 0 <= i < dec_digits(n).len() ==> (#[trigger] dec_digits(n)[i]) <= 0x7f,
    decreases n,
{
    if n > 0 {
        lemma_dec_digits_ascii(n / 10);
        assert forall|i: int| 0 <= i < dec_digits(n).len() implies (#[trigger] dec_digits(n)[i])
            <= 0x7f by {
            if i < dec_digits(n / 10).len() {
                assert(dec_digits(n)[i] == dec_digits(n / 10)[i]);
            }
        }
    }
}

/// The query-string encoding of the pairs: percent-encoded key `=`
/// percent-encoded value, joined with `&`.
pub open spec fn query_enc(q: Seq<SpecPair>) -> Seq<u8>
    decreases q.len(),
{
    if q.len() == 0 {
        Seq::<u8>::empty()
    } else if q.len() == 1 {
        percent_encode(q[0].0) + seq![61u8] + percent_encode(q[0].1)
    } else {
        query_enc(q.drop_last()) + seq![38u8] + percent_encode(q.last().0) + seq![61u8]
            + percent_encode(q.last().1)
    }
}

/// The UTF-8 bytes of the URI assembled for upstream forwarding:
/// `scheme://host:port path`, with the query string appended after `?` when
/// there are query parameters.
pub open spec fn spec_uri_bytes(
    scheme: Seq<u8>,
    host: Seq<u8>,
    port: u16,
    path: Seq<u8>,
    query: Seq<SpecPair>,
) -> Seq<u8> {
    scheme + seq![58u8, 47u8, 47u8] + host + seq![58u8] + spec_decimal(port) + path + (if query.len()
        == 0 {
        Seq::<u8>::empty()
    } else {
        seq![63u8] + query_enc(query)
    })
}

/// Assembles the URI string for a forwarded request, percent-encoding the
/// query parameters.
pub fn build_uri(
    scheme: &str,
    host: &str,
    port: u16,
    path: &str,
    query: &[(String, String)],
) -> (r: String)
    ensures
        encode_utf8(r@) == spec_uri_bytes(
            encode_utf8(scheme@),
            encode_utf8(host@),
            port,
            encode_utf8(path@),
            str_pairs_bytes(query@),
        ),
{
    let mut buf: Vec<u8> = Vec::new();
    buf.extend_from_slice(scheme.as_bytes());
    buf.push(58);
    buf.push(47);
    buf.push(47);
    buf.extend_from_slice(host.as_bytes());
    buf.push(58);
    if port == 0 {
        buf.push(48);
    } else {
        push_dec_digits(&mut buf, port);
    }
    buf.extend_from_slice(path.as_bytes());
    let ghost qview = str_pairs_bytes(query@);
    if query.len() > 0 {
        buf.push(63);
        let mut i: usize = 0;
        let ghost qbase = buf@;
        while i < query.len()
            invariant
                0 <= i <= query@.len(),
                query@.len() > 0,
                qview == str_pairs_bytes(query@),
                buf@ == qbase + query_enc(qview.take(i as int)),
            decreases query@.len() - i,
        {
            if i > 0 {
                buf.push(38);
            }
            let ke = url_encode(query[i].0.as_str());
            buf.extend_from_slice(ke.as_str().as_bytes());
            buf.push(61);
            let ve = url_encode(query[i].1.as_str());
            buf.extend_from_slice(ve.as_str().as_bytes());
            proof {
                assert(qview[i as int] == (encode_utf8(query@[i as int].0@), encode_utf8(
                    query@[i as int].1@,
                )));
                assert(qview.take(i + 1).drop_last() =~= qview.take(i as int));
                assert(qview.take(i + 1).last() == qview[i as int]);
                if i == 0 {
                    assert(query_enc(qview.take(1)) =~= percent_encode(qview[0].0) + seq![61u8]
                        + percent_encode(qview[0].1));
                    assert(buf@ =~= qbase + query_enc(qview.take(1)));
                } else {
                    assert(query_enc(qview.take(i + 1)) == query_enc(qview.take(i as int))
                        + seq![38u8] + percent_encode(qview[i as int].0) + seq![61u8]
                        + percent_encode(qview[i as int].1));
                    assert(buf@ =~= qbase + query_enc(qview.take(i + 1)));
                }
            }
            i = i + 1;
        }
        proof {
            assert(qview.take(query@.len() as int) =~= qview);
        }
    }
    proof {
        assert(buf@ =~= spec_uri_bytes(
            encode_utf8(scheme@),
            encode_utf8(host@),
            port,
            encode_utf8(path@),
            qview,
        ));
        // every piece of the URI is valid UTF-8
        vstd::utf8::encode_utf8_valid_utf8(scheme@);
        vstd::utf8::encode_utf8_valid_utf8(host@);
        vstd::utf8::encode_utf8_valid_utf8(path@);
        lemma_uri_bytes_valid(
            encode_utf8(scheme@),
            encode_utf8(host@),
            port,
            encode_utf8(path@),
            qview,
        );
    }
    let r = bytes_to_string(buf.as_slice());
    proof {
        vstd::utf8::decode_utf8_encode_utf8(buf@);
    }
    r
}

/// The assembled URI bytes are valid UTF-8 when scheme, host and path are.
proof fn lemma_uri_bytes_valid(
    scheme: Seq<u8>,
    host: Seq<u8>,
    port: u16,
    path: Seq<u8>,
    query: Seq<SpecPair>,
)
    requires
        valid_utf8(scheme),
        valid_utf8(host),
        valid_utf8(path),
    ensures
        valid_utf8(spec_uri_bytes(scheme, host, port, path, query)),
{
    lemma_ascii_bytes_valid_utf8(seq![58u8, 47u8, 47u8]);
    lemma_ascii_bytes_valid_utf8(seq![58u8]);
    lemma_dec_digits_ascii(port as nat);
    lemma_ascii_bytes_valid_utf8(spec_decimal(port));
    lemma_query_enc_ascii(query);
    let qpart: Seq<u8> = if query.len() == 0 {
        Seq::<u8>::empty()
    } else {
        seq![63u8] + query_enc(query)
    };
    assert forall|i: int| 0 <= i < qpart.len() implies (#[trigger] qpart[i]) <= 0x7f by {
        if i > 0 {
            assert(qpart[i] == query_enc(query)[i - 1]);
        }
    }
    lemma_ascii_bytes_valid_utf8(qpart);
    vstd::utf8::valid_utf8_concat(scheme, seq![58u8, 47u8, 47u8]);
    vstd::utf8::valid_utf8_concat(scheme + seq![58u8, 47u8, 47u8], host);
    vstd::utf8::valid_utf8_concat(scheme + seq![58u8, 47u8, 47u8] + host, seq![58u8]);
    vstd::utf8::valid_utf8_concat(scheme + seq![58u8, 47u8, 47u8] + host + seq![58u8], spec_decimal(port));
    vstd::utf8::valid_utf8_concat(
        scheme + seq![58u8, 47u8, 47u8] + host + seq![58u8] + spec_decimal(port),
        path,
    );
    vstd::utf8::valid_utf8_concat(
        scheme + seq![58u8, 47u8, 47u8] + host + seq![58u8] + spec_decimal(port) + path,
        qpart,
    );
}

/// Query-string bytes are ASCII.
proof fn lemma_query_enc_ascii(q: Seq<SpecPair>)
    ensures
        forall|i: int| 0 <= i < query_enc(q).len() ==> (#[trigger] query_enc(q)[i]) <= 0x7f,
    decreases q.len(),
{
    if q.len() == 0 {
    } else if q.len() == 1 {
        lemma_percent_encode_ascii(q[0].0);
        lemma_percent_encode_ascii(q[0].1);
        assert forall|i: int| 0 <= i < query_enc(q).len() implies (#[trigger] query_enc(q)[i])
            <= 0x7f by {
            let a = percent_encode(q[0].0);
            let b = percent_encode(q[0].1);
            if i < a.len() {
                assert(query_enc(q)[i] == a[i]);
            } else if i == a.len() {
                assert(query_enc(q)[i] == 61u8);
            } else {
                assert(query_enc(q)[i] == b[i - a.len() - 1]);
            }
        }
    } else {
        lemma_query_enc_ascii(q.drop_last());
        lemma_percent_encode_ascii(q.last().0);
        lemma_percent_encode_ascii(q.last().1);
        assert forall|i: int| 0 <= i < query_enc(q).len() implies (#[trigger] query_enc(q)[i])
            <= 0x7f by {
            let pre = query_enc(q.drop_last());
            let a = percent_encode(q.last().0);
            let b = percent_encode(q.last().1);
            if i < pre.len() {
                assert(query_enc(q)[i] == pre[i]);
            } else if i == pre.len() {
                assert(query_enc(q)[i] == 38u8);
            } else if i < pre.len() + 1 + a.len() {
                assert(query_enc(q)[i] == a[i - pre.len() - 1]);
            } else if i == pre.len() + 1 + a.len() {
                assert(query_enc(q)[i] == 61u8);
            } else {
                assert(query_enc(q)[i] == b[i - pre.len() - a.len() - 2]);
            }
        }
    }
}

} // verus!
