//! Recording sessions: a named recording in progress, owning a writer and a
//! request chain, and the manager that multiplexes sessions by test name.
//!
//! The central invariant is the chain linkage: inside a session the stored
//! entries form an unbroken hash chain starting at the chain head, and the
//! session's chain state equals the hash of the last stored request.

use vstd::prelude::*;
use vstd::bytes::{spec_u64_to_le_bytes, u64_to_le_bytes};
use vstd::utf8::encode_utf8;
use crate::errors::OuliError;
use crate::byteseq::bytes_eq;
use crate::hashes::{sha256, sha256_of};
use crate::fingerprint::{
    Request, RequestChain, CHAIN_HEAD_HASH, request_fits, spec_fingerprint, fingerprint_request,
};
use crate::storage::format::{InteractionEntry, CHAIN_DEPTH_MAX, DATA_OFFSET};
use crate::storage::writer::{RecordingWriter, spec_finalized_header};
use crate::recording::MAX_SESSIONS;

verus! {

/// A valid session name: nonempty, at most 255 bytes, no path separators,
/// no leading dot, no embedded null, no `..` substring.
pub open spec fn spec_valid_test_name(b: Seq<u8>) -> bool {
    &&& b.len() > 0
    &&& b.len() <= 255
    &&& b[0] != 46
    &&& forall|i: int| 0 <= i < b.len() ==> ((#[trigger] b[i]) != 47 && b[i] != 92 && b[i] != 0)
    &&& forall|i: int| 0 <= i < b.len() - 1 ==> !((#[trigger] b[i]) == 46 && b[i + 1] == 46)
}

/// Checks a test name against the session naming rules.
pub fn validate_test_name(name: &str) -> (r: Result<(), OuliError>)
    ensures
        r is Ok <==> spec_valid_test_name(encode_utf8(name@)),
        r is Err ==> (r->Err_0 is InvalidTestName),
{
    let b = name.as_bytes();
    let n = b.len();
    if n == 0 {
        return Err(OuliError::InvalidTestName("test name cannot be empty".to_owned()));
    }
    if n > 255 {
        return Err(OuliError::InvalidTestName("test name too long".to_owned()));
    }
    if b[0] == 46 {
        return Err(OuliError::InvalidTestName("test name cannot start with dot".to_owned()));
    }
    let mut i: usize = 0;
    while i < n
        invariant
            0 <= i <= n,
            n == b@.len(),
            b@ == encode_utf8(name@),
            n <= 255,
            forall|j: int| 0 <= j < i ==> ((#[trigger] b@[j]) != 47 && b@[j] != 92 && b@[j] != 0),
            forall|j: int| 0 <= j < i - 1 ==> !((#[trigger] b@[j]) == 46 && b@[j + 1] == 46),
        decreases n - i,
    {
        let c = b[i];
        if c == 47 || c == 92 {
            proof {
                assert(b@[i as int] == 47 || b@[i as int] == 92);
                assert(!spec_valid_test_name(b@));
            }
            return Err(OuliError::InvalidTestName(
                "test name cannot contain path separators".to_owned(),
            ));
        }
        if c == 0 {
            proof {
                assert(b@[i as int] == 0);
                assert(!spec_valid_test_name(b@));
            }
            return Err(OuliError::InvalidTestName(
                "test name cannot contain null bytes".to_owned(),
            ));
        }
        if i > 0 && b[i - 1] == 46 && c == 46 {
            proof {
                assert(b@[i - 1] == 46 && b@[i as int] == 46);
                assert(!spec_valid_test_name(b@));
            }
            return Err(OuliError::InvalidTestName("test name cannot contain '..'".to_owned()));
        }
        i = i + 1;
    }
    Ok(())
}

/// Recording identifier: the SHA-256 of the test name bytes followed by the
/// little-endian creation time.
pub open spec fn spec_recording_id(name: Seq<char>, now_ns: u64) -> Seq<u8> {
    sha256_of(encode_utf8(name) + spec_u64_to_le_bytes(now_ns))
}

/// Derives the recording identifier of a session.
pub fn generate_recording_id(test_name: &str, now_ns: u64) -> (r: [u8; 32])
    ensures
        r@ == spec_recording_id(test_name@, now_ns),
{
    let mut buf: Vec<u8> = Vec::new();
    buf.extend_from_slice(test_name.as_bytes());
    let mut t = u64_to_le_bytes(now_ns);
    buf.append(&mut t);
    proof {
        assert(buf@ =~= encode_utf8(test_name@) + spec_u64_to_le_bytes(now_ns));
    }
    sha256(buf.as_slice())
}

/// The stored entries form an unbroken hash chain: the first entry is
/// chained to the chain head, and each later entry to its predecessor's
/// request hash.
pub open spec fn entries_linked(entries: Seq<InteractionEntry>) -> bool {
    &&& (entries.len() > 0 ==> entries[0].prev_request_hash@ == CHAIN_HEAD_HASH@)
    &&& forall|i: int|
        1 <= i < entries.len() ==> #[trigger] entries[i].prev_request_hash@ == entries[i
            - 1].request_hash@
}

/// The chain state sits at the tip of the stored chain.
pub open spec fn chain_at_tip(entries: Seq<InteractionEntry>, tip: Seq<u8>) -> bool {
    if entries.len() == 0 {
        tip == CHAIN_HEAD_HASH@
    } else {
        tip == entries.last().request_hash@
    }
}

/// A single recording session.
pub struct RecordingSession {
    test_name: String,
    writer: Option<RecordingWriter>,
    chain: RequestChain,
    created_at: u64,
    interaction_count: u64,
}

impl RecordingSession {
    /// The session's test name.
    pub closed spec fn spec_test_name(self) -> Seq<char> {
        self.test_name@
    }

    /// The writer, while the session has not been finalized.
    pub closed spec fn spec_writer(self) -> Option<RecordingWriter> {
        self.writer
    }

    /// The current chain state.
    pub closed spec fn spec_chain(self) -> Seq<u8> {
        self.chain.spec_current()
    }

    /// Creation time in Unix nanoseconds.
    pub closed spec fn spec_created_at(self) -> u64 {
        self.created_at
    }

    /// The interaction metric.
    pub closed spec fn spec_interactions(self) -> u64 {
        self.interaction_count
    }

    /// Session invariant: while the writer is present, its entries are
    /// chain-linked and the chain state is the hash of the last entry.
    pub open spec fn wf(self) -> bool {
        match self.spec_writer() {
            Some(w) => {
                &&& w.wf()
                &&& entries_linked(w.spec_entries())
                &&& chain_at_tip(w.spec_entries(), self.spec_chain())
            },
            None => true,
        }
    }

    /// Opens a new session: fresh writer, chain seeded with the chain head.
    pub fn new(test_name: &str, now_ns: u64) -> (s: Self)
        ensures
            s.wf(),
            s.spec_test_name() == test_name@,
            s.spec_chain() == CHAIN_HEAD_HASH@,
            s.spec_created_at() == now_ns,
            s.spec_interactions() == 0,
            s.spec_writer() matches Some(w) && w.spec_entries().len() == 0
                && w.spec_data().len() == 0 && w.spec_header().recording_id@
                == spec_recording_id(test_name@, now_ns) && w.spec_header().created_at == now_ns,
    {
        let recording_id = generate_recording_id(test_name, now_ns);
        let writer = RecordingWriter::create(recording_id, now_ns);
        RecordingSession {
            test_name: test_name.to_owned(),
            writer: Some(writer),
            chain: RequestChain::new(),
            created_at: now_ns,
            interaction_count: 0,
        }
    }

    /// The test name.
    pub fn test_name(&self) -> (r: &str)
        ensures
            r@ == self.spec_test_name(),
    {
        self.test_name.as_str()
    }

    /// The interaction metric.
    pub fn interaction_count(&self) -> (r: u64)
        ensures
            r == self.spec_interactions(),
    {
        self.interaction_count
    }

    /// Bumps the interaction metric (saturating).
    pub fn increment_interactions(&mut self)
        ensures
            final(self).spec_interactions() == if old(self).spec_interactions()
                < 0xffff_ffff_ffff_ffff {
                old(self).spec_interactions() + 1
            } else {
                old(self).spec_interactions() as int
            },
            final(self).spec_test_name() == old(self).spec_test_name(),
            final(self).spec_writer() == old(self).spec_writer(),
            final(self).spec_chain() == old(self).spec_chain(),
            final(self).spec_created_at() == old(self).spec_created_at(),
            old(self).wf() ==> final(self).wf(),
    {
        self.interaction_count = self.interaction_count.saturating_add(1);
    }

    /// Session age relative to the given clock reading, saturating at zero.
    pub fn age(&self, now_ns: u64) -> (r: u64)
        ensures
            r == if now_ns >= self.spec_created_at() {
                now_ns - self.spec_created_at()
            } else {
                0
            },
    {
        if now_ns >= self.created_at {
            now_ns - self.created_at
        } else {
            0
        }
    }

    /// Records one serialized interaction: fingerprints the request against
    /// the current chain state, appends entry and blobs, and only then
    /// advances the chain, so a failed append leaves the session unchanged.
    pub fn record_serialized(
        &mut self,
        request: &Request,
        request_data: &[u8],
        response_data: &[u8],
        now_ns: u64,
    ) -> (r: Result<(), OuliError>)
        requires
            old(self).wf(),
            request_fits(*request),
        ensures
            final(self).wf(),
            final(self).spec_test_name() == old(self).spec_test_name(),
            final(self).spec_created_at() == old(self).spec_created_at(),
            r is Err ==> *final(self) == *old(self),
            old(self).spec_writer() is None ==> (r matches Err(OuliError::Other(_))),
            r is Ok <==> (old(self).spec_writer() matches Some(w) && {
                &&& w.spec_entries().len() < CHAIN_DEPTH_MAX
                &&& request_data@.len() <= 0xffff_ffff
                &&& response_data@.len() <= 0xffff_ffff
                &&& DATA_OFFSET + w.spec_data().len() + request_data@.len()
                    + response_data@.len() <= 0xffff_ffff_ffff_ffff
            }),
            r is Ok ==> (old(self).spec_writer() matches Some(w)
                && final(self).spec_writer() matches Some(w2) && {
                let h = spec_fingerprint(*request, old(self).spec_chain());
                &&& w2.spec_entries().len() == w.spec_entries().len() + 1
                &&& w2.spec_entries().drop_last() == w.spec_entries()
                &&& w2.spec_entries().last().request_hash@ == h
                &&& w2.spec_entries().last().prev_request_hash@ == old(self).spec_chain()
                &&& w2.spec_entries().last().timestamp == now_ns
                &&& w2.spec_entries().last().request_size == request_data@.len()
                &&& w2.spec_entries().last().response_size == response_data@.len()
                &&& w2.spec_data() == w.spec_data() + request_data@ + response_data@
                &&& w2.spec_header().recording_id == w.spec_header().recording_id
                &&& w2.spec_header().created_at == w.spec_header().created_at
                &&& final(self).spec_chain() == h
                &&& final(self).spec_interactions() == if old(self).spec_interactions()
                    < 0xffff_ffff_ffff_ffff {
                    old(self).spec_interactions() + 1
                } else {
                    old(self).spec_interactions() as int
                }
            }),
    {
        let prev = self.chain.previous_hash();
        let hash = fingerprint_request(request, prev);
        match &mut self.writer {
            Some(w) => {
                let res = w.append_interaction(hash, prev, request_data, response_data, now_ns);
                match res {
                    Ok(()) => {
                        self.chain = RequestChain::from_hash(hash);
                        self.interaction_count = self.interaction_count.saturating_add(1);
                        proof {
                            let w2 = self.writer->Some_0;
                            let es = w2.spec_entries();
                            assert(es.last() == es[es.len() - 1]);
                            assert forall|i: int| 1 <= i < es.len() implies #[trigger] es[i].prev_request_hash@
                                == es[i - 1].request_hash@ by {
                                if i < es.len() - 1 {
                                    assert(es.drop_last()[i] == es[i]);
                                    assert(es.drop_last()[i - 1] == es[i - 1]);
                                }
                            }
                        }
                        Ok(())
                    },
                    Err(e) => Err(e),
                }
            },
            None => Err(OuliError::Other("session already finalized".to_owned())),
        }
    }

    /// Finalizes the session: takes the writer, if still present, and turns
    /// it into the recording's byte image with the current chain state as
    /// the final chain state. Finalization is one-shot: later calls return
    /// nothing.
    pub fn finalize(&mut self) -> (r: Option<Vec<u8>>)
        requires
            old(self).wf(),
        ensures
            final(self).wf(),
            final(self).spec_writer() is None,
            final(self).spec_test_name() == old(self).spec_test_name(),
            final(self).spec_chain() == old(self).spec_chain(),
            final(self).spec_created_at() == old(self).spec_created_at(),
            final(self).spec_interactions() == old(self).spec_interactions(),
            r is Some <==> old(self).spec_writer() is Some,
            r matches Some(img) ==> (old(self).spec_writer() matches Some(w) && exists|fcs:
                [u8; 32]|
                fcs@ == old(self).spec_chain() && img@ == crate::storage::format::spec_image(
                    spec_finalized_header(w.spec_header(), fcs),
                    w.spec_entries(),
                    w.spec_data(),
                )),
    {
        let w = self.writer.take();
        match w {
            Some(writer) => {
                let fcs = self.chain.current_hash();
                let img = writer.finalize(fcs);
                Some(img)
            },
            None => None,
        }
    }
}

/// The session registry: at most `MAX_SESSIONS` sessions, with distinct
/// test names.
pub struct SessionManager {
    sessions: Vec<RecordingSession>,
}

impl SessionManager {
    /// The sessions currently open, in creation order.
    pub closed spec fn spec_sessions(self) -> Seq<RecordingSession> {
        self.sessions@
    }

    /// Manager invariant: every session is well formed, session names are
    /// distinct, and the count is bounded.
    pub open spec fn wf(self) -> bool {
        &&& forall|i: int|
            0 <= i < self.spec_sessions().len() ==> (#[trigger] self.spec_sessions()[i]).wf()
        &&& forall|i: int, j: int|
            0 <= i < j < self.spec_sessions().len() ==> (#[trigger] self.spec_sessions()[i]).spec_test_name()
                != (#[trigger] self.spec_sessions()[j]).spec_test_name()
        &&& self.spec_sessions().len() <= MAX_SESSIONS
    }

    /// A session with this name exists.
    pub open spec fn has_session(self, name: Seq<char>) -> bool {
        exists|i: int|
            0 <= i < self.spec_sessions().len() && (#[trigger] self.spec_sessions()[i]).spec_test_name()
                == name
    }

    /// The index of the session with this name (unique while names are
    /// distinct).
    pub open spec fn session_index(self, name: Seq<char>) -> int {
        choose|i: int|
            0 <= i < self.spec_sessions().len() && (#[trigger] self.spec_sessions()[i]).spec_test_name()
                == name
    }

    /// Creates an empty manager.
    pub fn new() -> (r: Self)
        ensures
            r.wf(),
            r.spec_sessions().len() == 0,
    {
        SessionManager { sessions: Vec::new() }
    }

    /// Number of open sessions.
    pub fn session_count(&self) -> (r: usize)
        ensures
            r == self.spec_sessions().len(),
    {
        self.sessions.len()
    }

    /// Read access to a session by index.
    pub fn session_at(&self, i: usize) -> (r: &RecordingSession)
        requires
            i < self.spec_sessions().len(),
        ensures
            *r == self.spec_sessions()[i as int],
    {
        &self.sessions[i]
    }

    /// Returns the index of the session with this name, creating it first
    /// when absent. Creation fails when the session limit is reached or the
    /// name is invalid.
    pub fn get_or_create_session(&mut self, test_name: &str, now_ns: u64) -> (r: Result<
        usize,
        OuliError,
    >)
        requires
            old(self).wf(),
        ensures
            final(self).wf(),
            r is Err ==> *final(self) == *old(self),
            r matches Ok(i) ==> i < final(self).spec_sessions().len()
                && final(self).spec_sessions()[i as int].spec_test_name() == test_name@,
            old(self).has_session(test_name@) ==> r is Ok && *final(self) == *old(self),
            !old(self).has_session(test_name@) && old(self).spec_sessions().len() >= MAX_SESSIONS
                ==> (r matches Err(OuliError::Other(_))),
            !old(self).has_session(test_name@) && old(self).spec_sessions().len() < MAX_SESSIONS
                && !spec_valid_test_name(encode_utf8(test_name@)) ==> (r matches Err(
                OuliError::InvalidTestName(_),
            )),
            !old(self).has_session(test_name@) && old(self).spec_sessions().len() < MAX_SESSIONS
                && spec_valid_test_name(encode_utf8(test_name@)) ==> (r == Ok::<usize, OuliError>(
                old(self).spec_sessions().len() as usize,
            ) && final(self).spec_sessions().len() == old(self).spec_sessions().len() + 1
                && final(self).spec_sessions().drop_last() == old(self).spec_sessions() && {
                let s = final(self).spec_sessions().last();
                &&& s.spec_test_name() == test_name@
                &&& s.spec_chain() == CHAIN_HEAD_HASH@
                &&& s.spec_created_at() == now_ns
                &&& s.spec_interactions() == 0
                &&& s.spec_writer() matches Some(w) && w.spec_entries().len() == 0
                    && w.spec_data().len() == 0
            }),
    {
        let n = self.sessions.len();
        let mut i: usize = 0;
        while i < n
            invariant
                0 <= i <= n,
                *self == *old(self),
                old(self).wf(),
                n == self.spec_sessions().len(),
                forall|j: int|
                    0 <= j < i ==> (#[trigger] self.spec_sessions()[j]).spec_test_name()
                        != test_name@,
            decreases n - i,
        {
            let s = &self.sessions[i];
            if bytes_eq(s.test_name().as_bytes(), test_name.as_bytes()) {
                proof {
                    vstd::utf8::encode_utf8_decode_utf8(self.spec_sessions()[i as int].spec_test_name());
                    vstd::utf8::encode_utf8_decode_utf8(test_name@);
                }
                return Ok(i);
            }
            proof {
                if self.spec_sessions()[i as int].spec_test_name() == test_name@ {
                    assert(false);
                }
            }
            i = i + 1;
        }
        proof {
            assert(!self.has_session(test_name@));
        }
        if n >= MAX_SESSIONS {
            return Err(OuliError::Other("session limit reached".to_owned()));
        }
        match validate_test_name(test_name) {
            Err(e) => {
                return Err(e);
            },
            Ok(()) => {},
        }
        let s = RecordingSession::new(test_name, now_ns);
        let ghost old_sessions = self.sessions@;
        self.sessions.push(s);
        proof {
            assert(self.sessions@.drop_last() =~= old_sessions);
        }
        Ok(n)
    }

    /// Records one serialized interaction into the session with this name,
    /// creating the session first when absent.
    pub fn record_serialized(
        &mut self,
        test_name: &str,
        request: &Request,
        request_data: &[u8],
        response_data: &[u8],
        now_ns: u64,
    ) -> (r: Result<(), OuliError>)
        requires
            old(self).wf(),
            request_fits(*request),
        ensures
            final(self).wf(),
            r is Ok <==> {
                &&& (old(self).has_session(test_name@) || (old(self).spec_sessions().len()
                    < MAX_SESSIONS && spec_valid_test_name(encode_utf8(test_name@))))
                &&& (old(self).has_session(test_name@) ==> {
                    let s = old(self).spec_sessions()[old(self).session_index(test_name@)];
                    s.spec_writer() matches Some(w) && w.spec_entries().len() < CHAIN_DEPTH_MAX
                        && DATA_OFFSET + w.spec_data().len() + request_data@.len()
                        + response_data@.len() <= 0xffff_ffff_ffff_ffff
                })
                &&& (!old(self).has_session(test_name@) ==> DATA_OFFSET + request_data@.len()
                    + response_data@.len() <= 0xffff_ffff_ffff_ffff)
                &&& request_data@.len() <= 0xffff_ffff
                &&& response_data@.len() <= 0xffff_ffff
            },
            // sessions under other names are untouched, whatever the outcome
            forall|j: int|
                0 <= j < old(self).spec_sessions().len() && (#[trigger] old(self).spec_sessions()[j]).spec_test_name() != test_name@
                    ==> j < final(self).spec_sessions().len() && final(self).spec_sessions()[j]
                    == old(self).spec_sessions()[j],
            old(self).has_session(test_name@) ==> final(self).spec_sessions().len() == old(self).spec_sessions().len(),
            // a failure appends no interaction anywhere: either nothing
            // changed, or only a fresh, still-empty session was opened
            r is Err && old(self).has_session(test_name@) ==> final(self).spec_sessions()
                == old(self).spec_sessions(),
            r is Err && !old(self).has_session(test_name@) ==> (*final(self) == *old(self) || (
            final(self).spec_sessions().len() == old(self).spec_sessions().len() + 1 && final(self).spec_sessions().drop_last() == old(self).spec_sessions()
                && (final(self).spec_sessions().last().spec_writer() matches Some(we)
                && we.spec_entries().len() == 0))),
            // error discrimination
            !old(self).has_session(test_name@) && old(self).spec_sessions().len() >= MAX_SESSIONS
                ==> (r matches Err(OuliError::Other(_))) && *final(self) == *old(self),
            !old(self).has_session(test_name@) && old(self).spec_sessions().len() < MAX_SESSIONS
                && !spec_valid_test_name(encode_utf8(test_name@)) ==> (r matches Err(
                OuliError::InvalidTestName(_),
            )) && *final(self) == *old(self),
            old(self).has_session(test_name@) && old(self).spec_sessions()[old(self).session_index(test_name@)].spec_writer() is None ==> (r matches Err(
                OuliError::Other(_),
            )),
            // on success, the session under the resolved name took exactly
            // this interaction
            r is Ok ==> ({
                let has = old(self).has_session(test_name@);
                let ti = if has {
                    old(self).session_index(test_name@)
                } else {
                    old(self).spec_sessions().len() as int
                };
                let prev = if has {
                    old(self).spec_sessions()[ti].spec_chain()
                } else {
                    crate::fingerprint::CHAIN_HEAD_HASH@
                };
                let cnt0: u64 = if has {
                    old(self).spec_sessions()[ti].spec_interactions()
                } else {
                    0
                };
                let s1 = final(self).spec_sessions()[ti];
                let h = spec_fingerprint(*request, prev);
                &&& 0 <= ti < final(self).spec_sessions().len()
                &&& s1.spec_test_name() == test_name@
                &&& s1.spec_chain() == h
                &&& s1.spec_interactions() == (if cnt0 < 0xffff_ffff_ffff_ffff {
                    cnt0 + 1
                } else {
                    cnt0 as int
                })
                &&& s1.spec_writer() matches Some(w2) && {
                    &&& w2.spec_entries().len() > 0
                    &&& w2.spec_entries().last().request_hash@ == h
                    &&& w2.spec_entries().last().prev_request_hash@ == prev
                    &&& w2.spec_entries().last().timestamp == now_ns
                    &&& w2.spec_data().len() >= request_data@.len() + response_data@.len()
                    &&& w2.spec_data().subrange(
                        w2.spec_data().len() - request_data@.len() - response_data@.len(),
                        w2.spec_data().len() - response_data@.len(),
                    ) == request_data@
                    &&& w2.spec_data().subrange(
                        w2.spec_data().len() - response_data@.len(),
                        w2.spec_data().len() as int,
                    ) == response_data@
                    &&& (old(self).has_session(test_name@) ==> (old(self).spec_sessions()[
                    ti].spec_writer() matches Some(w) && w2.spec_entries().len()
                        == w.spec_entries().len() + 1 && w2.spec_entries().drop_last()
                        == w.spec_entries()))
                    &&& (!old(self).has_session(test_name@) ==> w2.spec_entries().len() == 1)
                }
            }),
    {
        proof {
            if old(self).has_session(test_name@) {
                let idx0 = old(self).session_index(test_name@);
                assert(0 <= idx0 < old(self).spec_sessions().len() && old(self).spec_sessions()[
                    idx0].spec_test_name() == test_name@);
            }
        }
        let idx = match self.get_or_create_session(test_name, now_ns) {
            Ok(i) => i,
            Err(e) => {
                return Err(e);
            },
        };
        proof {
            if old(self).has_session(test_name@) {
                // names are distinct, so the resolved index is the unique match
                let idx0 = old(self).session_index(test_name@);
                if idx0 != idx as int {
                    if idx0 < idx as int {
                        assert(old(self).spec_sessions()[idx0].spec_test_name() != old(self).spec_sessions()[idx as int].spec_test_name());
                    } else {
                        assert(old(self).spec_sessions()[idx as int].spec_test_name() != old(self).spec_sessions()[idx0].spec_test_name());
                    }
                    assert(false);
                }
            }
        }
        let ghost pre = self.sessions@;
        let s = vec_index_mut_session(&mut self.sessions, idx);
        let res = s.record_serialized(request, request_data, response_data, now_ns);
        proof {
            // connect the outcome to the state of the session recorded into
            if old(self).has_session(test_name@) {
                let idx0 = old(self).session_index(test_name@);
                assert(pre[idx as int] == old(self).spec_sessions()[idx0]);
            } else {
                assert(pre[idx as int].spec_writer() matches Some(w) && w.spec_entries().len()
                    == 0 && w.spec_data().len() == 0);
            }
            assert(self.sessions@ =~= pre.update(idx as int, self.sessions@[idx as int]));
            assert forall|i: int, j: int|
                0 <= i < j < self.sessions@.len() implies (#[trigger] self.sessions@[i]).spec_test_name()
                != (#[trigger] self.sessions@[j]).spec_test_name() by {
                assert(pre[i].spec_test_name() != pre[j].spec_test_name());
            }
            if res is Ok {
                let w2 = self.sessions@[idx as int].spec_writer()->Some_0;
                assert(w2.spec_data().subrange(
                    w2.spec_data().len() - request_data@.len() - response_data@.len(),
                    w2.spec_data().len() - response_data@.len(),
                ) =~= request_data@);
                assert(w2.spec_data().subrange(
                    w2.spec_data().len() - response_data@.len(),
                    w2.spec_data().len() as int,
                ) =~= response_data@);
            }
        }
        res
    }

    /// Finalizes every session in order, returning each session's name and
    /// its finished recording image, then clears the registry. After this,
    /// recording under a previously used name opens a fresh session.
    #[verifier::rlimit(50)]
    pub fn finalize_all(&mut self) -> (r: Vec<(String, Vec<u8>)>)
        requires
            old(self).wf(),
        ensures
            final(self).wf(),
            final(self).spec_sessions().len() == 0,
            (forall|i: int|
                0 <= i < old(self).spec_sessions().len() ==> (#[trigger] old(self).spec_sessions()[i]).spec_writer() is Some) ==> {
                &&& r@.len() == old(self).spec_sessions().len()
                &&& forall|i: int|
                    0 <= i < r@.len() ==> {
                        let s = old(self).spec_sessions()[i];
                        let w = s.spec_writer()->Some_0;
                        &&& (#[trigger] r@[i]).0@ == s.spec_test_name()
                        &&& exists|fcs: [u8; 32]|
                            fcs@ == s.spec_chain() && r@[i].1@
                                == crate::storage::format::spec_image(
                                spec_finalized_header(w.spec_header(), fcs),
                                w.spec_entries(),
                                w.spec_data(),
                            )
                    }
            },
    {
        let ghost pre = self.sessions@;
        let n = self.sessions.len();
        let mut out: Vec<(String, Vec<u8>)> = Vec::new();
        let mut i: usize = 0;
        while i < n
            invariant
                0 <= i <= n,
                n == self.sessions@.len(),
                self.sessions@.len() == pre.len(),
                forall|j: int| i <= j < n ==> self.sessions@[j] == pre[j],
                forall|j: int| 0 <= j < n ==> (#[trigger] self.sessions@[j]).wf(),
                (forall|j: int|
                    0 <= j < pre.len() ==> (#[trigger] pre[j]).spec_writer() is Some) ==> {
                    &&& out@.len() == i
                    &&& forall|j: int|
                        0 <= j < i ==> {
                            let s = pre[j];
                            let w = s.spec_writer()->Some_0;
                            &&& (#[trigger] out@[j]).0@ == s.spec_test_name()
                            &&& exists|fcs: [u8; 32]|
                                fcs@ == s.spec_chain() && out@[j].1@
                                    == crate::storage::format::spec_image(
                                    spec_finalized_header(w.spec_header(), fcs),
                                    w.spec_entries(),
                                    w.spec_data(),
                                )
                        }
                },
            decreases n - i,
        {
            let name = self.sessions[i].test_name().to_owned();
            let ghost out_before = out@;
            let s = vec_index_mut_session(&mut self.sessions, i);
            let img = s.finalize();
            match img {
                Some(image) => {
                    out.push((name, image));
                },
                None => {
                    proof {
                        if forall|j: int|
                            0 <= j < pre.len() ==> (#[trigger] pre[j]).spec_writer() is Some {
                            assert(pre[i as int].spec_writer() is Some);
                            assert(false);
                        }
                    }
                },
            }
            proof {
                if forall|j: int|
                    0 <= j < pre.len() ==> (#[trigger] pre[j]).spec_writer() is Some {
                    assert(out@.len() == i + 1);
                    assert forall|j: int| 0 <= j < i + 1 implies {
                        let sx = pre[j];
                        let w = sx.spec_writer()->Some_0;
                        &&& (#[trigger] out@[j]).0@ == sx.spec_test_name()
                        &&& exists|fcs: [u8; 32]|
                            fcs@ == sx.spec_chain() && out@[j].1@
                                == crate::storage::format::spec_image(
                                spec_finalized_header(w.spec_header(), fcs),
                                w.spec_entries(),
                                w.spec_data(),
                            )
                    } by {
                        if j < i as int {
                            assert(out@[j] == out_before[j]);
                        } else {
                            assert(out@[j] == out@.last());
                        }
                    }
                }
            }
            i = i + 1;
        }
        self.sessions.clear();
        out
    }
}

/// Mutable access to one session of a vector, with the rest unchanged.
fn vec_index_mut_session(v: &mut Vec<RecordingSession>, i: usize) -> (r: &mut RecordingSession)
    requires
        i < old(v)@.len(),
    ensures
        *r == old(v)@[i as int],
        final(v)@ == old(v)@.update(i as int, *final(r)),
{
    &mut v[i]
}

} // verus!
