//! Recording engine: serializes request/response pairs and records them
//! into the session named by the caller (or the default session). Blob
//! serialization uses 16-bit little-endian length prefixes for counts and
//! strings and a 32-bit prefix for bodies.

use vstd::prelude::*;
use vstd::bytes::{spec_u16_to_le_bytes, spec_u32_to_le_bytes, u16_to_le_bytes, u32_to_le_bytes};
use crate::errors::OuliError;
use crate::fingerprint::{Request, request_fits, spec_fingerprint, str_pairs_bytes};
use crate::pairsort::{SpecPair, BytePair, pairs_view};
use crate::recording::session::{SessionManager, spec_valid_test_name};
use crate::recording::{DEFAULT_SESSION, MAX_SESSIONS};
use crate::storage::format::{CHAIN_DEPTH_MAX, DATA_OFFSET};
use vstd::utf8::encode_utf8;

verus! {

/// An HTTP response to record.
#[derive(Debug, Clone)]
pub struct Response {
    /// HTTP status code.
    pub status: u16,
    /// Response headers, in wire order.
    pub headers: Vec<(String, String)>,
    /// Response body.
    pub body: Vec<u8>,
}

impl Response {
    /// Byte view of the header pairs.
    pub open spec fn header_pairs(self) -> Seq<SpecPair> {
        str_pairs_bytes(self.headers@)
    }
}

/// Key and value of a pair fit a 16-bit length prefix.
pub open spec fn pair_fits16(p: SpecPair) -> bool {
    p.0.len() <= 0xffff && p.1.len() <= 0xffff
}

/// A pair list whose count and element lengths fit their 16-bit prefixes.
pub open spec fn pairs_fit16(ps: Seq<SpecPair>) -> bool {
    ps.len() <= 0xffff && forall|i: int| 0 <= i < ps.len() ==> pair_fits16(#[trigger] ps[i])
}

/// Every length-prefixed component fits its prefix in the storage
/// serialization, stated over the byte-level parts of a request.
pub open spec fn request_serializable_parts(
    method_b: Seq<u8>,
    path_b: Seq<u8>,
    q: Seq<SpecPair>,
    h: Seq<SpecPair>,
    body: Seq<u8>,
) -> bool {
    &&& method_b.len() <= 0xffff
    &&& path_b.len() <= 0xffff
    &&& pairs_fit16(q)
    &&& pairs_fit16(h)
    &&& body.len() <= 0xffff_ffff
}

/// Every length-prefixed component of the request fits its prefix in the
/// storage serialization.
pub open spec fn request_serializable(r: Request) -> bool {
    request_serializable_parts(
        r.method_bytes(),
        r.path_bytes(),
        r.query_pairs(),
        r.header_pairs(),
        r.body@,
    )
}

/// Every length-prefixed component fits its prefix, stated over the
/// byte-level parts of a response.
pub open spec fn response_serializable_parts(h: Seq<SpecPair>, body: Seq<u8>) -> bool {
    &&& pairs_fit16(h)
    &&& body.len() <= 0xffff_ffff
}

/// Every length-prefixed component of the response fits its prefix.
pub open spec fn response_serializable(r: Response) -> bool {
    response_serializable_parts(r.header_pairs(), r.body@)
}

/// A 16-bit little-endian byte count followed by the bytes.
pub open spec fn len16_prefixed(s: Seq<u8>) -> Seq<u8> {
    spec_u16_to_le_bytes(s.len() as u16) + s
}

/// Serialization of a pair list: 16-bit count, then each key and value
/// length-prefixed.
pub open spec fn pairs16_encoding(ps: Seq<SpecPair>) -> Seq<u8>
    decreases ps.len(),
{
    if ps.len() == 0 {
        Seq::<u8>::empty()
    } else {
        len16_prefixed(ps[0].0) + len16_prefixed(ps[0].1) + pairs16_encoding(ps.drop_first())
    }
}

/// The stored form of a request, over its byte-level parts: method, path,
/// query pairs, header pairs, body.
pub open spec fn spec_serialize_request_parts(
    method_b: Seq<u8>,
    path_b: Seq<u8>,
    q: Seq<SpecPair>,
    h: Seq<SpecPair>,
    body: Seq<u8>,
) -> Seq<u8> {
    len16_prefixed(method_b) + len16_prefixed(path_b) + spec_u16_to_le_bytes(q.len() as u16)
        + pairs16_encoding(q) + spec_u16_to_le_bytes(h.len() as u16) + pairs16_encoding(h)
        + spec_u32_to_le_bytes(body.len() as u32) + body
}

/// The stored form of a request: method, path, query pairs, header pairs,
/// body.
pub open spec fn spec_serialize_request(r: Request) -> Seq<u8> {
    spec_serialize_request_parts(
        r.method_bytes(),
        r.path_bytes(),
        r.query_pairs(),
        r.header_pairs(),
        r.body@,
    )
}

/// The stored form of a response, over its byte-level parts: status, header
/// pairs, body.
pub open spec fn spec_serialize_response_parts(status: u16, h: Seq<SpecPair>, body: Seq<u8>) -> Seq<
    u8,
> {
    spec_u16_to_le_bytes(status) + spec_u16_to_le_bytes(h.len() as u16) + pairs16_encoding(h)
        + spec_u32_to_le_bytes(body.len() as u32) + body
}

/// The stored form of a response: status, header pairs, body.
pub open spec fn spec_serialize_response(r: Response) -> Seq<u8> {
    spec_serialize_response_parts(r.status, r.header_pairs(), r.body@)
}

/// Appends a 16-bit length prefix and the bytes themselves.
fn push_len16_prefixed(buf: &mut Vec<u8>, v: &[u8])
    requires
        v@.len() <= 0xffff,
    ensures
        final(buf)@ == old(buf)@ + len16_prefixed(v@),
{
    let mut lp = u16_to_le_bytes(v.len() as u16);
    buf.append(&mut lp);
    buf.extend_from_slice(v);
}

/// Encoding one more pair extends the encoding of the pairs before it.
proof fn lemma_pairs16_encoding_push(s: Seq<SpecPair>, x: SpecPair)
    ensures
        pairs16_encoding(s.push(x)) =~= pairs16_encoding(s) + len16_prefixed(x.0) + len16_prefixed(
            x.1,
        ),
    decreases s.len(),
{
    if s.len() == 0 {
        assert(s.push(x)[0] == x);
        assert(s.push(x).drop_first() =~= Seq::<SpecPair>::empty());
        assert(pairs16_encoding(s.push(x)) == len16_prefixed(x.0) + len16_prefixed(x.1)
            + pairs16_encoding(Seq::<SpecPair>::empty()));
        assert(pairs16_encoding(s) =~= Seq::<u8>::empty());
    } else {
        assert(s.push(x)[0] == s[0]);
        assert(s.push(x).drop_first() =~= s.drop_first().push(x));
        lemma_pairs16_encoding_push(s.drop_first(), x);
        assert(pairs16_encoding(s.push(x)) == len16_prefixed(s[0].0) + len16_prefixed(s[0].1)
            + pairs16_encoding(s.drop_first().push(x)));
    }
}

/// Appends the 16-bit-prefixed encoding of a pair sequence.
fn push_pairs16(buf: &mut Vec<u8>, pairs: &Vec<BytePair>)
    requires
        forall|i: int| 0 <= i < pairs@.len() ==> pair_fits16(#[trigger] pairs_view(pairs@)[i]),
    ensures
        final(buf)@ == old(buf)@ + pairs16_encoding(pairs_view(pairs@)),
{
    let ghost base = buf@;
    let ghost ps = pairs_view(pairs@);
    let mut i: usize = 0;
    proof {
        assert(ps.take(0) =~= Seq::<SpecPair>::empty());
    }
    while i < pairs.len()
        invariant
            0 <= i <= pairs@.len(),
            ps == pairs_view(pairs@),
            forall|j: int| 0 <= j < pairs@.len() ==> pair_fits16(#[trigger] ps[j]),
            buf@ == base + pairs16_encoding(ps.take(i as int)),
        decreases pairs@.len() - i,
    {
        proof {
            assert(ps[i as int] == crate::pairsort::pair_view(pairs@[i as int]));
        }
        push_len16_prefixed(buf, pairs[i].0.as_slice());
        push_len16_prefixed(buf, pairs[i].1.as_slice());
        proof {
            lemma_pairs16_encoding_push(ps.take(i as int), ps[i as int]);
            assert(ps.take(i + 1) =~= ps.take(i as int).push(ps[i as int]));
            assert(buf@ =~= base + pairs16_encoding(ps.take(i + 1)));
        }
        i = i + 1;
    }
    proof {
        assert(ps.take(pairs@.len() as int) =~= ps);
    }
}

/// Serializes a request for storage.
pub fn serialize_request(request: &Request) -> (r: Vec<u8>)
    requires
        request_serializable(*request),
    ensures
        r@ == spec_serialize_request(*request),
{
    let mut buf: Vec<u8> = Vec::new();
    push_len16_prefixed(&mut buf, request.method.as_str().as_bytes());
    push_len16_prefixed(&mut buf, request.path.as_str().as_bytes());

    let q = crate::fingerprint::to_byte_pairs(&request.query);
    let mut t = u16_to_le_bytes(q.len() as u16);
    buf.append(&mut t);
    push_pairs16(&mut buf, &q);

    let h = crate::fingerprint::to_byte_pairs(&request.headers);
    let mut t = u16_to_le_bytes(h.len() as u16);
    buf.append(&mut t);
    push_pairs16(&mut buf, &h);

    let mut t = u32_to_le_bytes(request.body.len() as u32);
    buf.append(&mut t);
    buf.extend_from_slice(request.body.as_slice());
    proof {
        assert(buf@ =~= spec_serialize_request(*request));
    }
    buf
}

/// Serializes a response for storage.
pub fn serialize_response(response: &Response) -> (r: Vec<u8>)
    requires
        response_serializable(*response),
    ensures
        r@ == spec_serialize_response(*response),
{
    let mut buf: Vec<u8> = Vec::new();
    let mut t = u16_to_le_bytes(response.status);
    buf.append(&mut t);

    let h = crate::fingerprint::to_byte_pairs(&response.headers);
    let mut t = u16_to_le_bytes(h.len() as u16);
    buf.append(&mut t);
    push_pairs16(&mut buf, &h);

    let mut t = u32_to_le_bytes(response.body.len() as u32);
    buf.append(&mut t);
    buf.extend_from_slice(response.body.as_slice());
    proof {
        assert(buf@ =~= spec_serialize_response(*response));
    }
    buf
}

/// Checks that a string-pair list fits its 16-bit prefixes; on failure the
/// offending length (or pair count) is returned.
fn check_pairs_fit16(v: &Vec<(String, String)>) -> (r: Option<usize>)
    ensures
        r is None <==> pairs_fit16(str_pairs_bytes(v@)),
        r matches Some(n) ==> n > 0xffff,
{
    if v.len() > 0xffff {
        return Some(v.len());
    }
    let ghost ps = str_pairs_bytes(v@);
    let mut i: usize = 0;
    while i < v.len()
        invariant
            0 <= i <= v@.len(),
            v@.len() <= 0xffff,
            ps == str_pairs_bytes(v@),
            forall|j: int| 0 <= j < i ==> pair_fits16(#[trigger] ps[j]),
        decreases v@.len() - i,
    {
        let klen = v[i].0.as_str().as_bytes().len();
        let vlen = v[i].1.as_str().as_bytes().len();
        if klen > 0xffff {
            proof {
                assert(!pair_fits16(ps[i as int]));
            }
            return Some(klen);
        }
        if vlen > 0xffff {
            proof {
                assert(!pair_fits16(ps[i as int]));
            }
            return Some(vlen);
        }
        i = i + 1;
    }
    None
}

/// The session name an interaction is recorded under: the caller's, or the
/// default session.
pub open spec fn resolved_name(test_name: Option<&str>) -> Seq<char> {
    match test_name {
        Some(n) => n@,
        None => DEFAULT_SESSION@,
    }
}

/// Recording an interaction succeeds exactly when both blobs fit their
/// length prefixes and the session resolved by `name` can take one more
/// interaction: the session exists with a writer that still has an index
/// slot and room in its data section, or it can be created (name valid,
/// session limit not reached).
pub open spec fn record_ok(
    m: SessionManager,
    name: Seq<char>,
    request: Request,
    response: Response,
) -> bool {
    &&& request_serializable(request)
    &&& response_serializable(response)
    &&& record_room(
        m,
        name,
        spec_serialize_request(request).len(),
        spec_serialize_response(response).len(),
    )
}

/// The session resolved by `name` can take one more interaction of the
/// given serialized sizes: the session exists with a writer that still has
/// an index slot and room, or it can be created.
pub open spec fn record_room(m: SessionManager, name: Seq<char>, req_len: nat, resp_len: nat) -> bool {
    &&& (m.has_session(name) || (m.spec_sessions().len() < MAX_SESSIONS
        && spec_valid_test_name(encode_utf8(name))))
    &&& (m.has_session(name) ==> (m.spec_sessions()[m.session_index(name)].spec_writer()
        matches Some(w) && w.spec_entries().len() < CHAIN_DEPTH_MAX && DATA_OFFSET
        + w.spec_data().len() + req_len + resp_len <= 0xffff_ffff_ffff_ffff))
    &&& (!m.has_session(name) ==> DATA_OFFSET + req_len + resp_len <= 0xffff_ffff_ffff_ffff)
    &&& req_len <= 0xffff_ffff
    &&& resp_len <= 0xffff_ffff
}

/// Recording engine: resolves sessions and writes serialized interactions.
pub struct RecordingEngine {
    session_manager: SessionManager,
}

impl RecordingEngine {
    /// The session registry.
    pub closed spec fn spec_manager(self) -> SessionManager {
        self.session_manager
    }

    /// Engine invariant.
    pub open spec fn wf(self) -> bool {
        self.spec_manager().wf()
    }

    /// A fresh engine with no sessions.
    pub fn new() -> (r: Self)
        ensures
            r.wf(),
            r.spec_manager().spec_sessions().len() == 0,
    {
        RecordingEngine { session_manager: SessionManager::new() }
    }

    /// Records a request/response interaction under the given test name, or
    /// under the default session. The request is fingerprinted against the
    /// session's chain, both blobs are serialized, and the interaction is
    /// appended to the session's recording.
    #[verifier::rlimit(100)]
    pub fn record_interaction(
        &mut self,
        test_name: Option<&str>,
        request: &Request,
        response: &Response,
        now_ns: u64,
    ) -> (r: Result<(), OuliError>)
        requires
            old(self).wf(),
        ensures
            final(self).wf(),
            r is Ok <==> record_ok(
                old(self).spec_manager(),
                resolved_name(test_name),
                *request,
                *response,
            ),
            // sessions under other names are untouched, whatever the outcome
            forall|j: int|
                0 <= j < old(self).spec_manager().spec_sessions().len() && (#[trigger] old(self).spec_manager().spec_sessions()[j]).spec_test_name() != resolved_name(test_name)
                    ==> j < final(self).spec_manager().spec_sessions().len()
                    && final(self).spec_manager().spec_sessions()[j]
                    == old(self).spec_manager().spec_sessions()[j],
            // a failure appends no interaction anywhere: either nothing
            // changed, or only a fresh, still-empty session was opened
            r is Err && old(self).spec_manager().has_session(resolved_name(test_name))
                ==> final(self).spec_manager().spec_sessions()
                == old(self).spec_manager().spec_sessions(),
            r is Err && !old(self).spec_manager().has_session(resolved_name(test_name)) ==> (
            final(self).spec_manager().spec_sessions() == old(self).spec_manager().spec_sessions()
                || (final(self).spec_manager().spec_sessions().len() == old(self).spec_manager().spec_sessions().len() + 1
                && final(self).spec_manager().spec_sessions().drop_last()
                == old(self).spec_manager().spec_sessions()
                && (final(self).spec_manager().spec_sessions().last().spec_writer() matches Some(
                we,
            ) && we.spec_entries().len() == 0))),
            // error discrimination
            !(request_serializable(*request) && response_serializable(*response)) ==> (r matches
                Err(OuliError::DataTooLarge { .. })) && final(self).spec_manager().spec_sessions()
                == old(self).spec_manager().spec_sessions(),
            request_serializable(*request) && response_serializable(*response)
                && !old(self).spec_manager().has_session(resolved_name(test_name))
                && old(self).spec_manager().spec_sessions().len() >= crate::recording::MAX_SESSIONS
                ==> (r matches Err(OuliError::Other(_))),
            request_serializable(*request) && response_serializable(*response)
                && !old(self).spec_manager().has_session(resolved_name(test_name))
                && old(self).spec_manager().spec_sessions().len() < crate::recording::MAX_SESSIONS
                && !spec_valid_test_name(encode_utf8(resolved_name(test_name))) ==> (r matches Err(
                OuliError::InvalidTestName(_),
            )) && final(self).spec_manager().spec_sessions()
                == old(self).spec_manager().spec_sessions(),
            request_serializable(*request) && response_serializable(*response)
                && old(self).spec_manager().has_session(resolved_name(test_name))
                && old(self).spec_manager().spec_sessions()[old(self).spec_manager().session_index(
                resolved_name(test_name),
            )].spec_writer() is None ==> (r matches Err(OuliError::Other(_))),
            // on success, the resolved session took exactly this interaction
            r is Ok ==> ({
                let name = resolved_name(test_name);
                let m = old(self).spec_manager();
                let ti = if m.has_session(name) {
                    m.session_index(name)
                } else {
                    m.spec_sessions().len() as int
                };
                let prev = if m.has_session(name) {
                    m.spec_sessions()[ti].spec_chain()
                } else {
                    crate::fingerprint::CHAIN_HEAD_HASH@
                };
                let cnt0: u64 = if m.has_session(name) {
                    m.spec_sessions()[ti].spec_interactions()
                } else {
                    0
                };
                let s1 = final(self).spec_manager().spec_sessions()[ti];
                let h = spec_fingerprint(*request, prev);
                let req_b = spec_serialize_request(*request);
                let resp_b = spec_serialize_response(*response);
                &&& 0 <= ti < final(self).spec_manager().spec_sessions().len()
                &&& s1.spec_test_name() == name
                &&& s1.spec_chain() == h
                &&& s1.spec_interactions() == (if cnt0 < 0xffff_ffff_ffff_ffff {
                    cnt0 + 1
                } else {
                    cnt0 as int
                })
                &&& s1.spec_writer() matches Some(w2) && {
                    &&& w2.spec_entries().len() > 0
                    &&& w2.spec_entries().last().request_hash@ == h
                    &&& w2.spec_entries().last().prev_request_hash@ == prev
                    &&& w2.spec_entries().last().timestamp == now_ns
                    &&& w2.spec_data().len() >= req_b.len() + resp_b.len()
                    &&& w2.spec_data().subrange(
                        w2.spec_data().len() - req_b.len() - resp_b.len(),
                        w2.spec_data().len() - resp_b.len(),
                    ) == req_b
                    &&& w2.spec_data().subrange(
                        w2.spec_data().len() - resp_b.len(),
                        w2.spec_data().len() as int,
                    ) == resp_b
                    &&& (old(self).spec_manager().has_session(resolved_name(test_name)) ==> (
                    old(self).spec_manager().spec_sessions()[ti].spec_writer() matches Some(w)
                        && w2.spec_entries().len() == w.spec_entries().len() + 1
                        && w2.spec_entries().drop_last() == w.spec_entries()))
                    &&& (!old(self).spec_manager().has_session(resolved_name(test_name))
                        ==> w2.spec_entries().len() == 1)
                }
            }),
    {
        let name: &str = match test_name {
            Some(n) => n,
            None => DEFAULT_SESSION,
        };
        // reject anything whose serialized form would not fit its prefixes
        let mlen = request.method.as_str().as_bytes().len();
        if mlen > 0xffff {
            proof {
                assert(!request_serializable(*request));
            }
            return Err(OuliError::DataTooLarge { size: mlen, limit: 0xffff });
        }
        let plen = request.path.as_str().as_bytes().len();
        if plen > 0xffff {
            proof {
                assert(!request_serializable(*request));
            }
            return Err(OuliError::DataTooLarge { size: plen, limit: 0xffff });
        }
        if let Some(n) = check_pairs_fit16(&request.query) {
            return Err(OuliError::DataTooLarge { size: n, limit: 0xffff });
        }
        if let Some(n) = check_pairs_fit16(&request.headers) {
            return Err(OuliError::DataTooLarge { size: n, limit: 0xffff });
        }
        let blen = request.body.len();
        if blen > 0xffff_ffff {
            return Err(OuliError::DataTooLarge { size: blen, limit: 0xffff_ffff });
        }
        if let Some(n) = check_pairs_fit16(&response.headers) {
            return Err(OuliError::DataTooLarge { size: n, limit: 0xffff });
        }
        let rblen = response.body.len();
        if rblen > 0xffff_ffff {
            return Err(OuliError::DataTooLarge { size: rblen, limit: 0xffff_ffff });
        }
        proof {
            assert(request_fits(*request));
        }
        let request_data = serialize_request(request);
        let response_data = serialize_response(response);
        proof {
            assert(name@ == (match test_name {
                Some(n) => n@,
                None => DEFAULT_SESSION@,
            }));
            assert(request_data@.len() == spec_serialize_request(*request).len());
            assert(response_data@.len() == spec_serialize_response(*response).len());
        }
        let res = self.session_manager.record_serialized(
            name,
            request,
            request_data.as_slice(),
            response_data.as_slice(),
            now_ns,
        );
        proof {
            let m = old(self).spec_manager();
            let namev = name@;
            assert(res is Ok <==> {
                &&& (m.has_session(namev) || (m.spec_sessions().len() < MAX_SESSIONS
                    && spec_valid_test_name(encode_utf8(namev))))
                &&& (m.has_session(namev) ==> (m.spec_sessions()[m.session_index(
                    namev,
                )].spec_writer() matches Some(w) && w.spec_entries().len() < CHAIN_DEPTH_MAX
                    && DATA_OFFSET + w.spec_data().len() + request_data@.len()
                    + response_data@.len() <= 0xffff_ffff_ffff_ffff))
                &&& (!m.has_session(namev) ==> DATA_OFFSET + request_data@.len()
                    + response_data@.len() <= 0xffff_ffff_ffff_ffff)
                &&& request_data@.len() <= 0xffff_ffff
                &&& response_data@.len() <= 0xffff_ffff
            });
        }
        res
    }

    /// Number of active sessions.
    pub fn session_count(&self) -> (r: usize)
        ensures
            r == self.spec_manager().spec_sessions().len(),
    {
        self.session_manager.session_count()
    }

    /// Finalizes all sessions and returns their recording images, in
    /// session order.
    pub fn finalize_all(&mut self) -> (r: Vec<(String, Vec<u8>)>)
        requires
            old(self).wf(),
        ensures
            final(self).wf(),
            final(self).spec_manager().spec_sessions().len() == 0,
            (forall|i: int|
                0 <= i < old(self).spec_manager().spec_sessions().len() ==> (#[trigger] old(
                    self,
                ).spec_manager().spec_sessions()[i]).spec_writer() is Some) ==> {
                &&& r@.len() == old(self).spec_manager().spec_sessions().len()
                &&& forall|i: int|
                    0 <= i < r@.len() ==> {
                        let s = old(self).spec_manager().spec_sessions()[i];
                        let w = s.spec_writer()->Some_0;
                        &&& (#[trigger] r@[i]).0@ == s.spec_test_name()
                        &&& exists|fcs: [u8; 32]|
                            fcs@ == s.spec_chain() && r@[i].1@
                                == crate::storage::format::spec_image(
                                crate::storage::writer::spec_finalized_header(
                                    w.spec_header(),
                                    fcs,
                                ),
                                w.spec_entries(),
                                w.spec_data(),
                            )
                    }
            },
    {
        self.session_manager.finalize_all()
    }
}

} // verus!
