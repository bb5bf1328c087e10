//! Mode-switched dispatch: in record mode interactions go to the recording
//! engine (the upstream response is obtained by the surrounding program and
//! handed in); in replay mode requests are served from the replay cache,
//! and the dispatcher's own chain advances with each replayed request.

use vstd::prelude::*;
use vstd::string::StringExecFns;
use crate::errors::OuliError;
use crate::config::Mode;
use crate::fingerprint::{
    Request, RequestChain, CHAIN_HEAD_HASH, request_fits, spec_fingerprint, fingerprint_request,
};
use vstd::utf8::{encode_utf8, valid_utf8, decode_utf8};
use crate::hashes::sha256_of;
use crate::fingerprint::canonical_encoding;
use crate::net::{WsMessage, WebSocketHandler, ws_payload};
use crate::recording::engine::{
    RecordingEngine, Response, record_room, request_serializable_parts,
    response_serializable_parts, spec_serialize_request_parts, spec_serialize_response_parts,
};
use crate::replay::WarmingStrategy;
use crate::replay::cache::resp_model;
use crate::replay::engine::{ReplayEngine, CacheStats};

verus! {

/// HTTP proxy dispatcher.
pub struct HttpProxy {
    mode: Mode,
    recording_engine: Option<RecordingEngine>,
    replay_engine: Option<ReplayEngine>,
    request_chain: RequestChain,
}

impl HttpProxy {
    /// The operating mode.
    pub closed spec fn spec_mode(self) -> Mode {
        self.mode
    }

    /// The recording engine, present in record mode.
    pub closed spec fn spec_recording(self) -> Option<RecordingEngine> {
        self.recording_engine
    }

    /// The replay engine, present in replay mode.
    pub closed spec fn spec_replay(self) -> Option<ReplayEngine> {
        self.replay_engine
    }

    /// The dispatcher's chain state.
    pub closed spec fn spec_chain(self) -> Seq<u8> {
        self.request_chain.spec_current()
    }

    /// Exactly the engine of the current mode exists, and it is well
    /// formed.
    pub open spec fn wf(self) -> bool {
        &&& (self.spec_mode() == Mode::Record ==> (self.spec_recording() matches Some(e)
            && e.wf() && self.spec_replay() is None))
        &&& (self.spec_mode() == Mode::Replay ==> (self.spec_replay() matches Some(e) && e.wf()
            && self.spec_recording() is None))
    }

    /// A dispatcher for the given mode, with lazy cache warming in replay
    /// mode.
    pub fn new(mode: Mode) -> (r: Self)
        ensures
            r.wf(),
            r.spec_mode() == mode,
            r.spec_chain() == CHAIN_HEAD_HASH@,
    {
        let recording_engine = if mode.is_record() {
            Some(RecordingEngine::new())
        } else {
            None
        };
        let replay_engine = if mode.is_replay() {
            Some(ReplayEngine::new(WarmingStrategy::Lazy))
        } else {
            None
        };
        HttpProxy { mode, recording_engine, replay_engine, request_chain: RequestChain::new() }
    }

    /// True in record mode.
    pub fn is_record_mode(&self) -> (r: bool)
        ensures
            r == (self.spec_mode() == Mode::Record),
    {
        self.mode.is_record()
    }

    /// Record-mode handling: the upstream response obtained by the caller is
    /// recorded under the default session and returned.
    pub fn handle_record(
        &mut self,
        request: &Request,
        response: Response,
        now_ns: u64,
    ) -> (r: Result<Response, OuliError>)
        requires
            old(self).wf(),
        ensures
            final(self).wf(),
            final(self).spec_mode() == old(self).spec_mode(),
            old(self).spec_mode() != Mode::Record ==> (r matches Err(OuliError::Other(_))),
            old(self).spec_mode() == Mode::Record ==> (r is Ok <==> crate::recording::engine::record_ok(
                old(self).spec_recording()->Some_0.spec_manager(),
                crate::recording::DEFAULT_SESSION@,
                *request,
                response,
            )),
            // a failure records nothing: at most a fresh, empty session opens
            old(self).spec_mode() == Mode::Record && r is Err ==> ({
                let m0 = old(self).spec_recording()->Some_0.spec_manager().spec_sessions();
                let m1 = final(self).spec_recording()->Some_0.spec_manager().spec_sessions();
                m1 == m0 || (m1.len() == m0.len() + 1 && m1.drop_last() == m0 && (
                m1.last().spec_writer() matches Some(we) && we.spec_entries().len() == 0))
            }),
            // on success the default session took exactly this interaction
            old(self).spec_mode() == Mode::Record && r is Ok ==> ({
                let name = crate::recording::DEFAULT_SESSION@;
                let m = old(self).spec_recording()->Some_0.spec_manager();
                let ti = if m.has_session(name) {
                    m.session_index(name)
                } else {
                    m.spec_sessions().len() as int
                };
                let prev = if m.has_session(name) {
                    m.spec_sessions()[ti].spec_chain()
                } else {
                    CHAIN_HEAD_HASH@
                };
                let cnt0: u64 = if m.has_session(name) {
                    m.spec_sessions()[ti].spec_interactions()
                } else {
                    0
                };
                let s1 = final(self).spec_recording()->Some_0.spec_manager().spec_sessions()[ti];
                let h = spec_fingerprint(*request, prev);
                let req_b = crate::recording::engine::spec_serialize_request(*request);
                let resp_b = crate::recording::engine::spec_serialize_response(response);
                &&& 0 <= ti < final(self).spec_recording()->Some_0.spec_manager().spec_sessions().len()
                &&& s1.spec_test_name() == name
                &&& s1.spec_chain() == h
                &&& s1.spec_interactions() == (if cnt0 < 0xffff_ffff_ffff_ffff {
                    cnt0 + 1
                } else {
                    cnt0 as int
                })
                &&& s1.spec_writer() matches Some(w2) && {
                    &&& w2.spec_entries().len() > 0
                    &&& w2.spec_entries().last().request_hash@ == h
                    &&& w2.spec_entries().last().prev_request_hash@ == prev
                    &&& w2.spec_data().len() >= req_b.len() + resp_b.len()
                    &&& w2.spec_data().subrange(
                        w2.spec_data().len() - req_b.len() - resp_b.len(),
                        w2.spec_data().len() - resp_b.len(),
                    ) == req_b
                    &&& w2.spec_data().subrange(
                        w2.spec_data().len() - resp_b.len(),
                        w2.spec_data().len() as int,
                    ) == resp_b
                }
            }),
            r matches Ok(resp) ==> resp == response,
    {
        match &mut self.recording_engine {
            Some(engine) => {
                let res = engine.record_interaction(None, request, &response, now_ns);
                match res {
                    Ok(()) => Ok(response),
                    Err(e) => Err(e),
                }
            },
            None => Err(OuliError::Other("recording engine not initialized".to_owned())),
        }
    }

    /// Replay-mode handling: the request is fingerprinted against the
    /// dispatcher's chain; on a hit the chain advances to the new hash and
    /// the recorded response is returned, on a miss the chain is unchanged
    /// and the computed hash is reported.
    pub fn handle_replay(
        &mut self,
        method: String,
        path: String,
        query: Vec<(String, String)>,
        headers: Vec<(String, String)>,
        body: Vec<u8>,
    ) -> (r: Result<Response, OuliError>)
        requires
            old(self).wf(),
        ensures
            final(self).wf(),
            final(self).spec_mode() == old(self).spec_mode(),
            old(self).spec_mode() != Mode::Replay ==> (r matches Err(OuliError::Other(_)))
                && final(self).spec_chain() == old(self).spec_chain(),
            old(self).spec_mode() == Mode::Replay ==> ({
                let req = Request { method, path, query, headers, body };
                let h = spec_fingerprint(req, old(self).spec_chain());
                let cache = old(self).spec_replay()->Some_0.spec_cache();
                request_fits(req) ==> {
                    &&& (r is Ok <==> cache.cache_has(h))
                    &&& (r matches Ok(resp) ==> final(self).spec_chain() == h && resp.status
                        == resp_model(cache.cache_get(h)).0 && resp.body@ == resp_model(
                        cache.cache_get(h),
                    ).2)
                    &&& (!cache.cache_has(h) ==> (r matches Err(OuliError::RecordingNotFound(hh))
                        && hh@ == h) && final(self).spec_chain() == old(self).spec_chain())
                }
            }),
    {
        let request = Request { method, path, query, headers, body };
        match &mut self.replay_engine {
            Some(engine) => {
                let prev = self.request_chain.previous_hash();
                if !crate::replay::engine::fits_for_fingerprint(&request) {
                    return Err(OuliError::DataTooLarge { size: usize::MAX, limit: 0xffff_ffff });
                }
                // the hash the chain advances to on a hit
                let hash = fingerprint_request(&request, prev);
                let Request { method, path, query, headers, body } = request;
                let res = engine.replay_request(method, path, query, headers, body, prev);
                match res {
                    Ok(cached) => {
                        self.request_chain = RequestChain::from_hash(hash);
                        let crate::replay::cache::CachedResponse { status, headers, body } =
                            cached;
                        Ok(Response { status, headers, body })
                    },
                    Err(e) => Err(e),
                }
            },
            None => Err(OuliError::Other("replay engine not initialized".to_owned())),
        }
    }

    /// Finalizes recording: in record mode all sessions are closed and their
    /// images returned for persisting; in replay mode nothing happens.
    pub fn finalize(&mut self) -> (r: Vec<(String, Vec<u8>)>)
        requires
            old(self).wf(),
        ensures
            final(self).wf(),
            final(self).spec_mode() == old(self).spec_mode(),
            old(self).spec_mode() != Mode::Record ==> r@.len() == 0,
            old(self).spec_mode() == Mode::Record
                ==> final(self).spec_recording()->Some_0.spec_manager().spec_sessions().len()
                == 0,
            old(self).spec_mode() == Mode::Record ==> ({
                let sessions = old(self).spec_recording()->Some_0.spec_manager().spec_sessions();
                (forall|i: int|
                    0 <= i < sessions.len() ==> (#[trigger] sessions[i]).spec_writer()
                        is Some) ==> {
                    &&& r@.len() == sessions.len()
                    &&& forall|i: int|
                        0 <= i < r@.len() ==> {
                            let s = sessions[i];
                            let w = s.spec_writer()->Some_0;
                            &&& (#[trigger] r@[i]).0@ == s.spec_test_name()
                            &&& exists|fcs: [u8; 32]|
                                fcs@ == s.spec_chain() && r@[i].1@
                                    == crate::storage::format::spec_image(
                                    crate::storage::writer::spec_finalized_header(
                                        w.spec_header(),
                                        fcs,
                                    ),
                                    w.spec_entries(),
                                    w.spec_data(),
                                )
                        }
                }
            }),
    {
        match &mut self.recording_engine {
            Some(engine) => engine.finalize_all(),
            None => Vec::new(),
        }
    }

    /// Warms the replay cache from the given recordings, according to the
    /// engine's warming strategy; no-op in record mode.
    pub fn warm_cache(&mut self, available: &Vec<(String, Vec<u8>)>) -> (r: Result<(), OuliError>)
        requires
            old(self).wf(),
        ensures
            final(self).wf(),
            final(self).spec_mode() == old(self).spec_mode(),
            r is Ok,
            old(self).spec_mode() != Mode::Replay ==> *final(self) == *old(self),
            old(self).spec_mode() == Mode::Replay ==> ({
                let c0 = old(self).spec_replay()->Some_0.spec_cache();
                let c1 = final(self).spec_replay()->Some_0.spec_cache();
                &&& c1.spec_hits() == c0.spec_hits()
                &&& c1.spec_misses() == c0.spec_misses()
                &&& c1.spec_strategy() == c0.spec_strategy()
                &&& (c0.spec_strategy() == WarmingStrategy::Lazy ==> c1 == c0)
                &&& (c0.spec_strategy() == WarmingStrategy::Eager ==> {
                    &&& c1.cache_keys() =~= c0.cache_keys() + crate::replay::cache::list_keys(
                        available@,
                    )
                    &&& crate::replay::cache::list_keys(available@).subset_of(c0.cache_keys())
                        ==> c1.spec_entries().len() == c0.spec_entries().len()
                    &&& c1.spec_entries().len() == c0.spec_entries().len()
                        + crate::replay::cache::list_added(c0.cache_keys(), available@)
                })
            }),
    {
        match &mut self.replay_engine {
            Some(engine) => engine.warm(available),
            None => Ok(()),
        }
    }

    /// Loads one recording into the replay cache, with the cache's load
    /// contract carried through; no-op in record mode.
    pub fn load_recording(&mut self, test_name: &str, image: &[u8]) -> (r: Result<(), OuliError>)
        requires
            old(self).wf(),
        ensures
            final(self).wf(),
            final(self).spec_mode() == old(self).spec_mode(),
            old(self).spec_mode() != Mode::Replay ==> r is Ok && *final(self) == *old(self),
            old(self).spec_mode() == Mode::Replay ==> ({
                let c0 = old(self).spec_replay()->Some_0.spec_cache();
                let c1 = final(self).spec_replay()->Some_0.spec_cache();
                &&& (r is Ok <==> crate::storage::reader::image_valid(image@))
                &&& (r is Err ==> c1 == c0)
                &&& c1.spec_hits() == c0.spec_hits()
                &&& c1.spec_misses() == c0.spec_misses()
                &&& c1.spec_strategy() == c0.spec_strategy()
                &&& (r is Ok ==> crate::replay::cache::loaded_from(c0, c1, image@, test_name@))
            }),
    {
        match &mut self.replay_engine {
            Some(engine) => engine.load_recording(test_name, image),
            None => Ok(()),
        }
    }

    /// Cache statistics, available in replay mode.
    pub fn cache_stats(&self) -> (r: Option<CacheStats>)
        ensures
            r is Some <==> self.spec_replay() is Some,
    {
        match &self.replay_engine {
            Some(engine) => Some(engine.cache_stats()),
            None => None,
        }
    }
}

} // verus!

verus! {

/// WebSocket proxy dispatcher: the socket loops live in the surrounding
/// program; the record/replay decision per message is made here. Messages
/// are recorded as interactions whose request method is `WS`, whose path
/// names the direction, and whose body is the frame payload.
pub struct WebSocketProxy {
    mode: Mode,
    recording_engine: Option<RecordingEngine>,
    replay_engine: Option<ReplayEngine>,
    request_chain: RequestChain,
}

impl WebSocketProxy {
    /// The operating mode.
    pub closed spec fn spec_mode(self) -> Mode {
        self.mode
    }

    /// The recording engine, present in record mode.
    pub closed spec fn spec_recording(self) -> Option<RecordingEngine> {
        self.recording_engine
    }

    /// The replay engine, present in replay mode.
    pub closed spec fn spec_replay(self) -> Option<ReplayEngine> {
        self.replay_engine
    }

    /// The dispatcher's chain state.
    pub closed spec fn spec_chain(self) -> Seq<u8> {
        self.request_chain.spec_current()
    }

    /// Exactly the engine of the current mode exists, and it is well
    /// formed.
    pub open spec fn wf(self) -> bool {
        &&& (self.spec_mode() == Mode::Record ==> (self.spec_recording() matches Some(e)
            && e.wf() && self.spec_replay() is None))
        &&& (self.spec_mode() == Mode::Replay ==> (self.spec_replay() matches Some(e) && e.wf()
            && self.spec_recording() is None))
    }

    /// A dispatcher for the given mode.
    pub fn new(mode: Mode) -> (r: Self)
        ensures
            r.wf(),
            r.spec_mode() == mode,
            r.spec_chain() == CHAIN_HEAD_HASH@,
    {
        let recording_engine = if mode.is_record() {
            Some(RecordingEngine::new())
        } else {
            None
        };
        let replay_engine = if mode.is_replay() {
            Some(ReplayEngine::new(WarmingStrategy::Lazy))
        } else {
            None
        };
        WebSocketProxy { mode, recording_engine, replay_engine, request_chain: RequestChain::new() }
    }

    /// Records one data frame travelling in the given direction; a no-op
    /// outside record mode.
    pub fn record_message(&mut self, direction: &str, msg: &WsMessage, now_ns: u64) -> (r: Result<
        (),
        OuliError,
    >)
        requires
            old(self).wf(),
        ensures
            final(self).wf(),
            final(self).spec_mode() == old(self).spec_mode(),
            old(self).spec_mode() != Mode::Record ==> r is Ok && *final(self) == *old(self),
            old(self).spec_mode() == Mode::Record ==> ({
                let m = old(self).spec_recording()->Some_0.spec_manager();
                let name = crate::recording::DEFAULT_SESSION@;
                let payload = ws_payload(*msg);
                let method_b = encode_utf8("WS"@);
                let path_b = encode_utf8("/"@ + direction@);
                let req_b = spec_serialize_request_parts(
                    method_b,
                    path_b,
                    Seq::<crate::pairsort::SpecPair>::empty(),
                    Seq::<crate::pairsort::SpecPair>::empty(),
                    payload,
                );
                let resp_b = spec_serialize_response_parts(
                    200,
                    Seq::<crate::pairsort::SpecPair>::empty(),
                    payload,
                );
                &&& (r is Ok <==> (request_serializable_parts(
                    method_b,
                    path_b,
                    Seq::<crate::pairsort::SpecPair>::empty(),
                    Seq::<crate::pairsort::SpecPair>::empty(),
                    payload,
                ) && response_serializable_parts(
                    Seq::<crate::pairsort::SpecPair>::empty(),
                    payload,
                ) && record_room(m, name, req_b.len(), resp_b.len())))
                &&& (r is Err ==> ({
                    let m1 = final(self).spec_recording()->Some_0.spec_manager().spec_sessions();
                    m1 == m.spec_sessions() || (m1.len() == m.spec_sessions().len() + 1
                        && m1.drop_last() == m.spec_sessions() && (m1.last().spec_writer()
                        matches Some(we) && we.spec_entries().len() == 0))
                }))
                &&& (r is Ok ==> ({
                    let ti = if m.has_session(name) {
                        m.session_index(name)
                    } else {
                        m.spec_sessions().len() as int
                    };
                    let prev = if m.has_session(name) {
                        m.spec_sessions()[ti].spec_chain()
                    } else {
                        CHAIN_HEAD_HASH@
                    };
                    let s1 = final(self).spec_recording()->Some_0.spec_manager().spec_sessions()[ti];
                    let h = sha256_of(
                        canonical_encoding(
                            method_b,
                            path_b,
                            Seq::<crate::pairsort::SpecPair>::empty(),
                            Seq::<crate::pairsort::SpecPair>::empty(),
                            payload,
                            prev,
                        ),
                    );
                    &&& 0 <= ti < final(self).spec_recording()->Some_0.spec_manager().spec_sessions().len()
                    &&& s1.spec_test_name() == name
                    &&& s1.spec_chain() == h
                    &&& s1.spec_writer() matches Some(w2) && {
                        &&& w2.spec_entries().len() > 0
                        &&& w2.spec_entries().last().request_hash@ == h
                        &&& w2.spec_entries().last().prev_request_hash@ == prev
                        &&& w2.spec_data().len() >= req_b.len() + resp_b.len()
                        &&& w2.spec_data().subrange(
                            w2.spec_data().len() - req_b.len() - resp_b.len(),
                            w2.spec_data().len() - resp_b.len(),
                        ) == req_b
                        &&& w2.spec_data().subrange(
                            w2.spec_data().len() - resp_b.len(),
                            w2.spec_data().len() as int,
                        ) == resp_b
                    }
                }))
            }),
    {
        match &mut self.recording_engine {
            Some(engine) => {
                let data = WebSocketHandler::message_to_bytes(msg);
                let body = vstd::slice::slice_to_vec(data.as_slice());
                let mut path = "/".to_owned();
                path.append(direction);
                let request = Request {
                    method: "WS".to_owned(),
                    path,
                    query: Vec::new(),
                    headers: Vec::new(),
                    body,
                };
                let response = Response { status: 200, headers: Vec::new(), body: data };
                proof {
                    assert(request.query_pairs() =~= Seq::<crate::pairsort::SpecPair>::empty());
                    assert(request.header_pairs() =~= Seq::<crate::pairsort::SpecPair>::empty());
                    assert(response.header_pairs() =~= Seq::<crate::pairsort::SpecPair>::empty());
                    assert(request.method_bytes() == encode_utf8("WS"@));
                    assert(request.path_bytes() == encode_utf8("/"@ + direction@));
                    assert(request.body@ == ws_payload(*msg));
                    assert(response.body@ == ws_payload(*msg));
                }
                let res = engine.record_interaction(None, &request, &response, now_ns);
                proof {
                    let payload = ws_payload(*msg);
                    let method_b = encode_utf8("WS"@);
                    let path_b = encode_utf8("/"@ + direction@);
                    assert(crate::recording::engine::spec_serialize_request(request)
                        == spec_serialize_request_parts(
                        method_b,
                        path_b,
                        Seq::<crate::pairsort::SpecPair>::empty(),
                        Seq::<crate::pairsort::SpecPair>::empty(),
                        payload,
                    ));
                    assert(crate::recording::engine::spec_serialize_response(response)
                        == spec_serialize_response_parts(
                        200,
                        Seq::<crate::pairsort::SpecPair>::empty(),
                        payload,
                    ));
                    assert(crate::recording::engine::request_serializable(request)
                        == request_serializable_parts(
                        method_b,
                        path_b,
                        Seq::<crate::pairsort::SpecPair>::empty(),
                        Seq::<crate::pairsort::SpecPair>::empty(),
                        payload,
                    ));
                    assert(crate::recording::engine::response_serializable(response)
                        == response_serializable_parts(
                        Seq::<crate::pairsort::SpecPair>::empty(),
                        payload,
                    ));
                }
                res
            },
            None => Ok(()),
        }
    }

    /// Replays one data frame: the frame is fingerprinted against the
    /// dispatcher's chain (which advances), and the recorded payload comes
    /// back in a frame of the same kind; a miss or a wrong mode is an
    /// error.
    pub fn replay_message(&mut self, msg: &WsMessage) -> (r: Result<WsMessage, OuliError>)
        requires
            old(self).wf(),
        ensures
            final(self).wf(),
            final(self).spec_mode() == old(self).spec_mode(),
            old(self).spec_mode() != Mode::Replay ==> (r is Err) && final(self).spec_chain()
                == old(self).spec_chain(),
            old(self).spec_mode() == Mode::Replay ==> ({
                let cache = old(self).spec_replay()->Some_0.spec_cache();
                let payload = ws_payload(*msg);
                let h = sha256_of(
                    canonical_encoding(
                        encode_utf8("WS"@),
                        encode_utf8("/client_to_server"@),
                        Seq::<crate::pairsort::SpecPair>::empty(),
                        Seq::<crate::pairsort::SpecPair>::empty(),
                        payload,
                        old(self).spec_chain(),
                    ),
                );
                &&& (payload.len() > 0xffff_ffff ==> (r matches Err(
                    OuliError::DataTooLarge { .. },
                )) && final(self).spec_chain() == old(self).spec_chain())
                &&& (payload.len() <= 0xffff_ffff ==> {
                    &&& final(self).spec_chain() == h
                    &&& (r is Ok <==> cache.cache_has(h))
                    &&& (r matches Ok(out) ==> ({
                        let body = resp_model(cache.cache_get(h)).2;
                        &&& (msg is Text ==> (out matches WsMessage::Text(t) && (valid_utf8(
                            body,
                        ) ==> t@ == decode_utf8(body))))
                        &&& (!(msg is Text) ==> (out matches WsMessage::Binary(d) && d@ == body))
                    }))
                    &&& (!cache.cache_has(h) ==> (r matches Err(OuliError::RecordingNotFound(hh))
                        && hh@ == h))
                })
            }),
    {
        match &mut self.replay_engine {
            Some(engine) => {
                let data = WebSocketHandler::message_to_bytes(msg);
                if data.len() > 0xffff_ffff {
                    return Err(OuliError::DataTooLarge { size: data.len(), limit: 0xffff_ffff });
                }
                let prev = self.request_chain.previous_hash();
                let body = vstd::slice::slice_to_vec(data.as_slice());
                let request = Request {
                    method: "WS".to_owned(),
                    path: "/client_to_server".to_owned(),
                    query: Vec::new(),
                    headers: Vec::new(),
                    body,
                };
                proof {
                    assert(request.query_pairs() =~= Seq::<crate::pairsort::SpecPair>::empty());
                    assert(request.header_pairs() =~= Seq::<crate::pairsort::SpecPair>::empty());
                    // the fixed method and path are short ASCII strings
                    reveal_strlit("WS");
                    reveal_strlit("/client_to_server");
                    assert(vstd::utf8::is_ascii_chars("WS"@));
                    assert(vstd::utf8::is_ascii_chars("/client_to_server"@));
                    vstd::utf8::is_ascii_chars_encode_utf8("WS"@);
                    vstd::utf8::is_ascii_chars_encode_utf8("/client_to_server"@);
                    assert(encode_utf8("WS"@).len() == 2);
                    assert(encode_utf8("/client_to_server"@).len() == 17);
                    assert(request_fits(request));
                }
                if !crate::replay::engine::fits_for_fingerprint(&request) {
                    return Err(OuliError::DataTooLarge { size: usize::MAX, limit: 0xffff_ffff });
                }
                let hash = fingerprint_request(&request, prev);
                self.request_chain = RequestChain::from_hash(hash);
                let Request { method, path, query, headers, body } = request;
                let res = engine.replay_request(method, path, query, headers, body, prev);
                match res {
                    Ok(cached) => {
                        match msg {
                            WsMessage::Text(_) => Ok(
                                WsMessage::Text(
                                    crate::strutil::bytes_to_string(cached.body.as_slice()),
                                ),
                            ),
                            _ => Ok(WsMessage::Binary(cached.body)),
                        }
                    },
                    Err(e) => Err(e),
                }
            },
            None => Err(OuliError::Other("replay engine not initialized".to_owned())),
        }
    }

    /// Finalizes recording: in record mode all sessions are closed and
    /// their images returned for persisting; otherwise nothing happens.
    pub fn finalize(&mut self) -> (r: Vec<(String, Vec<u8>)>)
        requires
            old(self).wf(),
        ensures
            final(self).wf(),
            final(self).spec_mode() == old(self).spec_mode(),
            old(self).spec_mode() != Mode::Record ==> r@.len() == 0,
            old(self).spec_mode() == Mode::Record
                ==> final(self).spec_recording()->Some_0.spec_manager().spec_sessions().len()
                == 0,
            old(self).spec_mode() == Mode::Record ==> ({
                let sessions = old(self).spec_recording()->Some_0.spec_manager().spec_sessions();
                (forall|i: int|
                    0 <= i < sessions.len() ==> (#[trigger] sessions[i]).spec_writer()
                        is Some) ==> {
                    &&& r@.len() == sessions.len()
                    &&& forall|i: int|
                        0 <= i < r@.len() ==> {
                            let s = sessions[i];
                            let w = s.spec_writer()->Some_0;
                            &&& (#[trigger] r@[i]).0@ == s.spec_test_name()
                            &&& exists|fcs: [u8; 32]|
                                fcs@ == s.spec_chain() && r@[i].1@
                                    == crate::storage::format::spec_image(
                                    crate::storage::writer::spec_finalized_header(
                                        w.spec_header(),
                                        fcs,
                                    ),
                                    w.spec_entries(),
                                    w.spec_data(),
                                )
                        }
                }
            }),
    {
        match &mut self.recording_engine {
            Some(engine) => engine.finalize_all(),
            None => Vec::new(),
        }
    }

    /// Warms the replay cache from the given recordings, according to the
    /// engine's warming strategy; no-op in record mode.
    pub fn warm_cache(&mut self, available: &Vec<(String, Vec<u8>)>) -> (r: Result<(), OuliError>)
        requires
            old(self).wf(),
        ensures
            final(self).wf(),
            final(self).spec_mode() == old(self).spec_mode(),
            final(self).spec_chain() == old(self).spec_chain(),
            r is Ok,
            old(self).spec_mode() != Mode::Replay ==> *final(self) == *old(self),
            old(self).spec_mode() == Mode::Replay ==> ({
                let c0 = old(self).spec_replay()->Some_0.spec_cache();
                let c1 = final(self).spec_replay()->Some_0.spec_cache();
                &&& c1.spec_hits() == c0.spec_hits()
                &&& c1.spec_misses() == c0.spec_misses()
                &&& c1.spec_strategy() == c0.spec_strategy()
                &&& (c0.spec_strategy() == WarmingStrategy::Lazy ==> c1 == c0)
                &&& (c0.spec_strategy() == WarmingStrategy::Eager ==> {
                    &&& c1.cache_keys() =~= c0.cache_keys() + crate::replay::cache::list_keys(
                        available@,
                    )
                    &&& crate::replay::cache::list_keys(available@).subset_of(c0.cache_keys())
                        ==> c1.spec_entries().len() == c0.spec_entries().len()
                    &&& c1.spec_entries().len() == c0.spec_entries().len()
                        + crate::replay::cache::list_added(c0.cache_keys(), available@)
                })
            }),
    {
        match &mut self.replay_engine {
            Some(engine) => engine.warm(available),
            None => Ok(()),
        }
    }

    /// Loads one recording into the replay cache, with the cache's load
    /// contract carried through; no-op in record mode.
    pub fn load_recording(&mut self, test_name: &str, image: &[u8]) -> (r: Result<(), OuliError>)
        requires
            old(self).wf(),
        ensures
            final(self).wf(),
            final(self).spec_mode() == old(self).spec_mode(),
            final(self).spec_chain() == old(self).spec_chain(),
            old(self).spec_mode() != Mode::Replay ==> r is Ok && *final(self) == *old(self),
            old(self).spec_mode() == Mode::Replay ==> ({
                let c0 = old(self).spec_replay()->Some_0.spec_cache();
                let c1 = final(self).spec_replay()->Some_0.spec_cache();
                &&& (r is Ok <==> crate::storage::reader::image_valid(image@))
                &&& (r is Err ==> c1 == c0)
                &&& c1.spec_hits() == c0.spec_hits()
                &&& c1.spec_misses() == c0.spec_misses()
                &&& c1.spec_strategy() == c0.spec_strategy()
                &&& (r is Ok ==> crate::replay::cache::loaded_from(c0, c1, image@, test_name@))
            }),
    {
        match &mut self.replay_engine {
            Some(engine) => engine.load_recording(test_name, image),
            None => Ok(()),
        }
    }
}

} // verus!
