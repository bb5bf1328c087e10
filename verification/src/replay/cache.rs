//! Replay cache: deserialization of stored responses and the
//! fingerprint-keyed map of cached responses with hit/miss accounting.

use vstd::prelude::*;
use vstd::bytes::{
    spec_u16_from_le_bytes, spec_u32_from_le_bytes, u16_from_le_bytes, u32_from_le_bytes,
    lemma_auto_spec_u16_to_from_le_bytes, lemma_auto_spec_u32_to_from_le_bytes,
};
use vstd::slice::{slice_subrange, slice_to_vec};
use vstd::utf8::{valid_utf8, decode_utf8};
use crate::errors::OuliError;
use crate::pairsort::SpecPair;
use crate::recording::engine::{
    Response, pairs16_encoding, len16_prefixed, pair_fits16, response_serializable,
    spec_serialize_response,
};
use crate::replay::WarmingStrategy;
use crate::storage::reader::{
    RecordingReader, image_valid, entry_slice, slot_request_hash,
};
use crate::storage::format::{hdr_interaction_count, entry_matches};

verus! {

/// A cached response: the replayable value of one recorded interaction.
#[derive(Debug)]
pub struct CachedResponse {
    /// Response status code.
    pub status: u16,
    /// Response headers.
    pub headers: Vec<(String, String)>,
    /// Response body.
    pub body: Vec<u8>,
}

/// The value of a cached response: status, header text pairs, body bytes.
pub open spec fn resp_model(r: CachedResponse) -> (u16, Seq<(Seq<char>, Seq<char>)>, Seq<u8>) {
    (r.status, r.headers@.map_values(|p: (String, String)| (p.0@, p.1@)), r.body@)
}

impl Clone for CachedResponse {
    /// Cloning preserves the response value.
    fn clone(&self) -> (r: Self)
        ensures
            resp_model(r) == resp_model(*self),
    {
        let mut headers: Vec<(String, String)> = Vec::new();
        let mut i: usize = 0;
        while i < self.headers.len()
            invariant
                0 <= i <= self.headers@.len(),
                headers@.len() == i,
                forall|j: int|
                    0 <= j < i ==> (#[trigger] headers@[j]).0@ == self.headers@[j].0@
                        && headers@[j].1@ == self.headers@[j].1@,
            decreases self.headers@.len() - i,
        {
            headers.push((self.headers[i].0.clone(), self.headers[i].1.clone()));
            i = i + 1;
        }
        let r = CachedResponse {
            status: self.status,
            headers,
            body: slice_to_vec(self.body.as_slice()),
        };
        proof {
            assert(r.headers@.map_values(|p: (String, String)| (p.0@, p.1@))
                =~= self.headers@.map_values(|p: (String, String)| (p.0@, p.1@)));
        }
        r
    }
}

/// Parses `n` pairs, each as two 16-bit-length-prefixed byte strings, and
/// returns them with the remaining bytes.
pub open spec fn parse_pairs16(b: Seq<u8>, n: nat) -> Option<(Seq<SpecPair>, Seq<u8>)>
    decreases n,
{
    if n == 0 {
        Some((Seq::<SpecPair>::empty(), b))
    } else if b.len() < 2 {
        None
    } else {
        let klen = spec_u16_from_le_bytes(b.subrange(0, 2)) as int;
        if b.len() < 2 + klen {
            None
        } else {
            let k = b.subrange(2, 2 + klen);
            let b1 = b.skip(2 + klen);
            if b1.len() < 2 {
                None
            } else {
                let vlen = spec_u16_from_le_bytes(b1.subrange(0, 2)) as int;
                if b1.len() < 2 + vlen {
                    None
                } else {
                    let v = b1.subrange(2, 2 + vlen);
                    let b2 = b1.skip(2 + vlen);
                    match parse_pairs16(b2, (n - 1) as nat) {
                        Some((ps, rest)) => Some((seq![(k, v)] + ps, rest)),
                        None => None,
                    }
                }
            }
        }
    }
}

/// Parses a stored response blob: status, header count, headers, body.
/// Trailing bytes are ignored.
pub open spec fn spec_parse_response(b: Seq<u8>) -> Option<(u16, Seq<SpecPair>, Seq<u8>)> {
    if b.len() < 4 {
        None
    } else {
        let status = spec_u16_from_le_bytes(b.subrange(0, 2));
        let hcount = spec_u16_from_le_bytes(b.subrange(2, 4)) as nat;
        match parse_pairs16(b.skip(4), hcount) {
            Some((hs, rest)) => {
                if rest.len() < 4 {
                    None
                } else {
                    let blen = spec_u32_from_le_bytes(rest.subrange(0, 4)) as int;
                    if rest.len() < 4 + blen {
                        None
                    } else {
                        Some((status, hs, rest.subrange(4, 4 + blen)))
                    }
                }
            },
            None => None,
        }
    }
}

/// Parsing inverts serialization: a serialized pair list followed by any
/// tail parses back to the same pairs with the tail left over.
pub proof fn lemma_parse_pairs16_roundtrip(ps: Seq<SpecPair>, tail: Seq<u8>)
    requires
        forall|i: int| 0 <= i < ps.len() ==> pair_fits16(#[trigger] ps[i]),
    ensures
        parse_pairs16(pairs16_encoding(ps) + tail, ps.len()) == Some((ps, tail)),
    decreases ps.len(),
{
    lemma_auto_spec_u16_to_from_le_bytes();
    if ps.len() == 0 {
        assert(pairs16_encoding(ps) + tail =~= tail);
        assert(parse_pairs16(tail, 0) == Some((Seq::<SpecPair>::empty(), tail)));
        assert(Seq::<SpecPair>::empty() =~= ps);
    } else {
        let k = ps[0].0;
        let v = ps[0].1;
        let restenc = pairs16_encoding(ps.drop_first());
        let b = pairs16_encoding(ps) + tail;
        assert(pairs16_encoding(ps) == len16_prefixed(k) + len16_prefixed(v) + restenc);
        let klen = k.len() as int;
        let vlen = v.len() as int;
        assert(b.subrange(0, 2) =~= vstd::bytes::spec_u16_to_le_bytes(k.len() as u16));
        assert(spec_u16_from_le_bytes(b.subrange(0, 2)) == klen);
        assert(b.len() >= 2 + klen);
        assert(b.subrange(2, 2 + klen) =~= k);
        let b1 = b.skip(2 + klen);
        assert(b1 =~= len16_prefixed(v) + restenc + tail);
        assert(b1.subrange(0, 2) =~= vstd::bytes::spec_u16_to_le_bytes(v.len() as u16));
        assert(spec_u16_from_le_bytes(b1.subrange(0, 2)) == vlen);
        assert(b1.len() >= 2 + vlen);
        assert(b1.subrange(2, 2 + vlen) =~= v);
        let b2 = b1.skip(2 + vlen);
        assert(b2 =~= restenc + tail);
        assert(forall|i: int|
            0 <= i < ps.drop_first().len() ==> pair_fits16(#[trigger] ps.drop_first()[i]));
        lemma_parse_pairs16_roundtrip(ps.drop_first(), tail);
        assert(parse_pairs16(b2, (ps.len() - 1) as nat) == Some((ps.drop_first(), tail)));
        assert(seq![(k, v)] + ps.drop_first() =~= ps);
    }
}

/// Deserializing a serialized response recovers its status, header byte
/// pairs and body exactly.
pub proof fn lemma_response_roundtrip(r: Response)
    requires
        response_serializable(r),
    ensures
        spec_parse_response(spec_serialize_response(r)) == Some(
            (r.status, r.header_pairs(), r.body@),
        ),
{
    lemma_auto_spec_u16_to_from_le_bytes();
    lemma_auto_spec_u32_to_from_le_bytes();
    let b = spec_serialize_response(r);
    let body_part = vstd::bytes::spec_u32_to_le_bytes(r.body@.len() as u32) + r.body@;
    assert(b.subrange(0, 2) =~= vstd::bytes::spec_u16_to_le_bytes(r.status));
    assert(b.subrange(2, 4) =~= vstd::bytes::spec_u16_to_le_bytes(r.header_pairs().len() as u16));
    assert(b.len() >= 4);
    assert(spec_u16_from_le_bytes(b.subrange(0, 2)) == r.status);
    assert(spec_u16_from_le_bytes(b.subrange(2, 4)) == r.header_pairs().len());
    assert(b.skip(4) =~= pairs16_encoding(r.header_pairs()) + body_part);
    lemma_parse_pairs16_roundtrip(r.header_pairs(), body_part);
    assert(parse_pairs16(b.skip(4), r.header_pairs().len()) == Some(
        (r.header_pairs(), body_part),
    ));
    assert(body_part.subrange(0, 4) =~= vstd::bytes::spec_u32_to_le_bytes(r.body@.len() as u32));
    assert(spec_u32_from_le_bytes(body_part.subrange(0, 4)) == r.body@.len());
    assert(body_part.subrange(4, 4 + r.body@.len() as int) =~= r.body@);
}

/// Continuation form of pair parsing: what the whole parse returns once the
/// pairs in `acc` have already been taken.
pub open spec fn parse_cont(acc: Seq<SpecPair>, b: Seq<u8>, n: nat) -> Option<
    (Seq<SpecPair>, Seq<u8>),
> {
    match parse_pairs16(b, n) {
        Some((ps, rest)) => Some((acc + ps, rest)),
        None => None,
    }
}

/// Deserializes a stored response blob. Succeeds exactly when the blob has
/// the serialized structure; header names and values are recovered exactly
/// whenever their bytes are valid UTF-8.
pub fn deserialize_response(data: &[u8]) -> (r: Result<CachedResponse, OuliError>)
    ensures
        r is Ok <==> spec_parse_response(data@) is Some,
        r is Err ==> (r->Err_0 is InvalidFormat),
        r matches Ok(resp) ==> (spec_parse_response(data@) matches Some(m) && {
            &&& resp.status == m.0
            &&& resp.body@ == m.2
            &&& resp.headers@.len() == m.1.len()
            &&& forall|i: int|
                0 <= i < m.1.len() ==> (valid_utf8((#[trigger] m.1[i]).0) ==> resp.headers@[i].0@
                    == decode_utf8(m.1[i].0))
            &&& forall|i: int|
                0 <= i < m.1.len() ==> (valid_utf8((#[trigger] m.1[i]).1) ==> resp.headers@[i].1@
                    == decode_utf8(m.1[i].1))
        }),
{
    let n = data.len();
    if n < 4 {
        return Err(OuliError::InvalidFormat("response too short".to_owned()));
    }
    let status = u16_from_le_bytes(slice_subrange(data, 0, 2));
    let header_count = u16_from_le_bytes(slice_subrange(data, 2, 4));
    let ghost base = data@.skip(4);
    let ghost hcount = header_count as nat;

    let mut headers: Vec<(String, String)> = Vec::new();
    let ghost mut models: Seq<SpecPair> = Seq::<SpecPair>::empty();
    let mut off: usize = 4;
    let mut k: u16 = 0;
    proof {
        assert(models + Seq::<SpecPair>::empty() =~= models);
    }
    while k < header_count
        invariant
            n == data@.len(),
            data@.len() >= 4,
            4 <= off <= data@.len(),
            0 <= k <= header_count,
            status == spec_u16_from_le_bytes(data@.subrange(0, 2)),
            header_count == spec_u16_from_le_bytes(data@.subrange(2, 4)),
            hcount == header_count as nat,
            base == data@.skip(4),
            parse_pairs16(base, hcount) == parse_cont(
                models,
                data@.skip(off as int),
                (header_count - k) as nat,
            ),
            headers@.len() == models.len(),
            models.len() == k,
            forall|i: int|
                0 <= i < models.len() ==> (valid_utf8((#[trigger] models[i]).0)
                    ==> headers@[i].0@ == decode_utf8(models[i].0)),
            forall|i: int|
                0 <= i < models.len() ==> (valid_utf8((#[trigger] models[i]).1)
                    ==> headers@[i].1@ == decode_utf8(models[i].1)),
        decreases header_count - k,
    {
        let ghost bcur = data@.skip(off as int);
        let ghost ncur = (header_count - k) as nat;
        // name length
        if n - off < 2 {
            proof {
                assert(bcur.len() < 2);
                assert(parse_pairs16(bcur, ncur) is None);
                assert(spec_parse_response(data@) is None);
            }
            return Err(OuliError::InvalidFormat("missing header name length".to_owned()));
        }
        let klen = u16_from_le_bytes(slice_subrange(data, off, off + 2)) as usize;
        proof {
            assert(bcur.subrange(0, 2) =~= data@.subrange(off as int, off + 2));
        }
        if n - (off + 2) < klen {
            proof {
                assert(bcur.len() < 2 + klen);
                assert(parse_pairs16(bcur, ncur) is None);
                assert(spec_parse_response(data@) is None);
            }
            return Err(OuliError::InvalidFormat("missing header name".to_owned()));
        }
        let name = crate::strutil::bytes_to_string(slice_subrange(data, off + 2, off + 2 + klen));
        let ghost kbytes = data@.subrange(off + 2, off + 2 + klen);
        proof {
            assert(bcur.subrange(2, 2 + klen) =~= kbytes);
        }
        let off1 = off + 2 + klen;
        let ghost b1 = data@.skip(off1 as int);
        proof {
            assert(bcur.skip(2 + klen) =~= b1);
        }
        // value length
        if n - off1 < 2 {
            proof {
                assert(b1.len() < 2);
                assert(parse_pairs16(bcur, ncur) is None);
                assert(spec_parse_response(data@) is None);
            }
            return Err(OuliError::InvalidFormat("missing header value length".to_owned()));
        }
        let vlen = u16_from_le_bytes(slice_subrange(data, off1, off1 + 2)) as usize;
        proof {
            assert(b1.subrange(0, 2) =~= data@.subrange(off1 as int, off1 + 2));
        }
        if n - (off1 + 2) < vlen {
            proof {
                assert(b1.len() < 2 + vlen);
                assert(parse_pairs16(bcur, ncur) is None);
                assert(spec_parse_response(data@) is None);
            }
            return Err(OuliError::InvalidFormat("missing header value".to_owned()));
        }
        let value = crate::strutil::bytes_to_string(
            slice_subrange(data, off1 + 2, off1 + 2 + vlen),
        );
        let ghost vbytes = data@.subrange(off1 + 2, off1 + 2 + vlen);
        proof {
            assert(b1.subrange(2, 2 + vlen) =~= vbytes);
        }
        let off2 = off1 + 2 + vlen;
        proof {
            assert(b1.skip(2 + vlen) =~= data@.skip(off2 as int));
            assert(parse_pairs16(bcur, ncur) == (match parse_pairs16(
                data@.skip(off2 as int),
                (ncur - 1) as nat,
            ) {
                Some((ps, rest)) => Some((seq![(kbytes, vbytes)] + ps, rest)),
                None => None,
            }));
        }
        headers.push((name, value));
        proof {
            let m2 = models.push((kbytes, vbytes));
            assert forall|ps: Seq<SpecPair>| true implies models + (seq![(kbytes, vbytes)] + ps)
                =~= m2 + ps by {}
            assert(parse_cont(models, bcur, ncur) == parse_cont(
                m2,
                data@.skip(off2 as int),
                (ncur - 1) as nat,
            ));
            models = m2;
        }
        off = off2;
        k = k + 1;
    }
    // body
    let ghost brest = data@.skip(off as int);
    proof {
        assert(parse_pairs16(base, hcount) == Some((models, brest)));
    }
    if n - off < 4 {
        proof {
            assert(brest.len() < 4);
        }
        return Err(OuliError::InvalidFormat("missing body length".to_owned()));
    }
    let blen = u32_from_le_bytes(slice_subrange(data, off, off + 4)) as usize;
    proof {
        assert(brest.subrange(0, 4) =~= data@.subrange(off as int, off + 4));
    }
    if n - (off + 4) < blen {
        proof {
            assert(brest.len() < 4 + blen);
        }
        return Err(OuliError::InvalidFormat("missing body".to_owned()));
    }
    let body = slice_to_vec(slice_subrange(data, off + 4, off + 4 + blen));
    proof {
        assert(brest.subrange(4, 4 + blen) =~= data@.subrange(off + 4, off + 4 + blen));
    }
    Ok(CachedResponse { status, headers, body })
}

} // verus!

use vstd::prelude::*;

verus! {

/// The stored response blob of index slot `i`, as located by its entry.
pub open spec fn slot_resp_off(b: Seq<u8>, i: int) -> u64 {
    vstd::bytes::spec_u64_from_le_bytes(entry_slice(b, i).subrange(72, 80))
}

pub open spec fn slot_resp_size(b: Seq<u8>, i: int) -> u32 {
    spec_u32_from_le_bytes(entry_slice(b, i).subrange(92, 96))
}

pub open spec fn slot_resp_blob(b: Seq<u8>, i: int) -> Seq<u8> {
    b.subrange(slot_resp_off(b, i) as int, slot_resp_off(b, i) + slot_resp_size(b, i))
}

/// Slot `i` contributes to the cache: its response blob lies inside the
/// image and deserializes.
pub open spec fn slot_loaded(b: Seq<u8>, i: int) -> bool {
    &&& 0 <= i < hdr_interaction_count(b)
    &&& slot_resp_off(b, i) + slot_resp_size(b, i) <= b.len()
    &&& spec_parse_response(slot_resp_blob(b, i)) is Some
}

/// Slot `i` is the one whose response survives for its hash: no later
/// loaded slot has the same request hash.
pub open spec fn slot_wins(b: Seq<u8>, i: int) -> bool {
    &&& slot_loaded(b, i)
    &&& forall|j: int|
        i < j < hdr_interaction_count(b) && slot_loaded(b, j) ==> slot_request_hash(b, j)
            != slot_request_hash(b, i)
}

/// The request hashes a recording image contributes to the cache.
pub open spec fn image_keys(b: Seq<u8>) -> Set<Seq<u8>> {
    Set::new(|h: Seq<u8>| exists|i: int| slot_loaded(b, i) && slot_request_hash(b, i) == h)
}

/// What loading the image `b` under `name` does to a cache: the loaded
/// hashes join the key set, the recording is registered, every winning slot
/// (no later loaded slot with the same hash) has its parsed response cached
/// under its hash, and untouched keys keep their values. Loading only
/// already-present keys keeps the entry count.
pub open spec fn loaded_from(c0: ReplayCache, c1: ReplayCache, b: Seq<u8>, name: Seq<char>) -> bool {
    &&& c1.cache_keys() =~= c0.cache_keys() + image_keys(b)
    &&& c1.spec_recordings() == c0.spec_recordings().push(name)
    &&& forall|i: int|
        #[trigger] slot_wins(b, i) ==> c1.cache_has(slot_request_hash(b, i)) && {
            let m = spec_parse_response(slot_resp_blob(b, i))->Some_0;
            let stored = c1.cache_get(slot_request_hash(b, i));
            &&& stored.status == m.0
            &&& stored.body@ == m.2
            &&& stored.headers@.len() == m.1.len()
            &&& forall|kk: int|
                0 <= kk < m.1.len() ==> (valid_utf8((#[trigger] m.1[kk]).0)
                    ==> stored.headers@[kk].0@ == decode_utf8(m.1[kk].0))
            &&& forall|kk: int|
                0 <= kk < m.1.len() ==> (valid_utf8((#[trigger] m.1[kk]).1)
                    ==> stored.headers@[kk].1@ == decode_utf8(m.1[kk].1))
        }
    &&& forall|h: Seq<u8>|
        !image_keys(b).contains(h) && c0.cache_has(h) ==> #[trigger] c1.cache_has(h)
            && c1.cache_get(h) == c0.cache_get(h)
    &&& image_keys(b).subset_of(c0.cache_keys()) ==> c1.spec_entries().len()
        == c0.spec_entries().len()
    &&& image_keys(b).difference(c0.cache_keys()).finite()
    &&& c1.spec_entries().len() == c0.spec_entries().len() + image_keys(b).difference(
        c0.cache_keys(),
    ).len()
}

/// Replay cache: a fingerprint-keyed map of responses with hit/miss
/// counters and a list of loaded recordings.
pub struct ReplayCache {
    cache: Vec<([u8; 32], CachedResponse)>,
    recordings: Vec<String>,
    hits: usize,
    misses: usize,
    warming_strategy: WarmingStrategy,
}

impl ReplayCache {
    /// The cached entries, in insertion order.
    pub closed spec fn spec_entries(self) -> Seq<([u8; 32], CachedResponse)> {
        self.cache@
    }

    /// Names of the recordings loaded so far.
    pub closed spec fn spec_recordings(self) -> Seq<Seq<char>> {
        self.recordings@.map_values(|s: String| s@)
    }

    /// Number of lookup hits.
    pub closed spec fn spec_hits(self) -> usize {
        self.hits
    }

    /// Number of lookup misses.
    pub closed spec fn spec_misses(self) -> usize {
        self.misses
    }

    /// The configured warming strategy.
    pub closed spec fn spec_strategy(self) -> WarmingStrategy {
        self.warming_strategy
    }

    /// Cache invariant: one entry per request hash.
    pub open spec fn wf(self) -> bool {
        forall|i: int, j: int|
            0 <= i < j < self.spec_entries().len() ==> (#[trigger] self.spec_entries()[i]).0@ != (
            #[trigger] self.spec_entries()[j]).0@
    }

    /// A response is cached under this hash.
    pub open spec fn cache_has(self, h: Seq<u8>) -> bool {
        exists|i: int|
            0 <= i < self.spec_entries().len() && (#[trigger] self.spec_entries()[i]).0@ == h
    }

    /// The set of cached request hashes.
    pub open spec fn cache_keys(self) -> Set<Seq<u8>> {
        Set::new(|h: Seq<u8>| self.cache_has(h))
    }

    /// The response cached under this hash.
    pub open spec fn cache_get(self, h: Seq<u8>) -> CachedResponse {
        self.spec_entries()[choose|i: int|
            0 <= i < self.spec_entries().len() && (#[trigger] self.spec_entries()[i]).0@ == h].1
    }

    /// An empty cache with the given warming strategy.
    pub fn new(warming_strategy: WarmingStrategy) -> (r: Self)
        ensures
            r.wf(),
            r.spec_entries().len() == 0,
            r.spec_recordings().len() == 0,
            r.spec_hits() == 0,
            r.spec_misses() == 0,
            r.spec_strategy() == warming_strategy,
    {
        ReplayCache {
            cache: Vec::new(),
            recordings: Vec::new(),
            hits: 0,
            misses: 0,
            warming_strategy,
        }
    }

    /// Inserts a response under a hash; an existing entry for the same hash
    /// is replaced.
    fn insert_response(&mut self, hash: [u8; 32], resp: CachedResponse)
        requires
            old(self).wf(),
        ensures
            final(self).wf(),
            final(self).cache_keys() =~= old(self).cache_keys().insert(hash@),
            resp_model(final(self).cache_get(hash@)) == resp_model(resp),
            forall|h: Seq<u8>|
                h != hash@ && old(self).cache_has(h) ==> #[trigger] final(self).cache_has(h)
                    && final(self).cache_get(h) == old(self).cache_get(h),
            final(self).spec_entries().len() == if old(self).cache_has(hash@) {
                old(self).spec_entries().len() as int
            } else {
                (old(self).spec_entries().len() + 1) as int
            },
            final(self).spec_hits() == old(self).spec_hits(),
            final(self).spec_misses() == old(self).spec_misses(),
            final(self).spec_recordings() == old(self).spec_recordings(),
            final(self).spec_strategy() == old(self).spec_strategy(),
    {
        let n = self.cache.len();
        let ghost pre = self.cache@;
        proof {
            assert(pre == old(self).spec_entries());
            assert forall|a: int, c: int| 0 <= a < c < pre.len() implies (#[trigger] pre[a]).0@
                != (#[trigger] pre[c]).0@ by {
                assert((old(self).spec_entries()[a]).0@ != (old(self).spec_entries()[c]).0@);
            }
        }
        let mut i: usize = 0;
        while i < n
            invariant
                0 <= i <= n,
                *self == *old(self),
                old(self).wf(),
                n == self.cache@.len(),
                pre == self.cache@,
                pre == old(self).spec_entries(),
                forall|a: int, c: int|
                    0 <= a < c < pre.len() ==> (#[trigger] pre[a]).0@ != (#[trigger] pre[c]).0@,
                forall|j: int| 0 <= j < i ==> (#[trigger] self.cache@[j]).0@ != hash@,
            decreases n - i,
        {
            if crate::byteseq::bytes32_eq(&self.cache[i].0, &hash) {
                proof {
                    assert(pre[i as int].0@ == hash@);
                }
                self.cache[i] = (hash, resp);
                proof {
                    assert(self.cache@ =~= pre.update(i as int, (hash, resp)));
                    // keys of the updated row agree with the old keys
                    assert forall|j: int, j2: int|
                        0 <= j < j2 < self.cache@.len() implies (#[trigger] self.cache@[j]).0@
                        != (#[trigger] self.cache@[j2]).0@ by {
                        assert(pre[j].0@ != pre[j2].0@);
                        assert(self.cache@[j].0@ == pre[j].0@);
                        assert(self.cache@[j2].0@ == pre[j2].0@);
                    }
                    assert forall|h: Seq<u8>| self.cache_has(h) implies old(self).cache_keys().insert(hash@).contains(h) by {
                        let j = choose|j: int|
                            0 <= j < self.cache@.len() && (#[trigger] self.cache@[j]).0@ == h;
                        if j != i {
                            assert(pre[j].0@ == h);
                        }
                    }
                    assert forall|h: Seq<u8>| old(self).cache_keys().insert(hash@).contains(
                        h,
                    ) implies self.cache_has(h) by {
                        if h == hash@ {
                            assert(self.cache@[i as int].0@ == h);
                        } else {
                            let j = choose|j: int|
                                0 <= j < pre.len() && (#[trigger] pre[j]).0@ == h;
                            assert(self.cache@[j].0@ == h);
                        }
                    }
                    assert(self.cache@[i as int].0@ == hash@);
                    let w = choose|j: int|
                        0 <= j < self.cache@.len() && (#[trigger] self.cache@[j]).0@ == hash@;
                    if w != i {
                        assert(pre[w].0@ == hash@);
                        if w < i as int {
                            assert(pre[w].0@ != pre[i as int].0@);
                        } else {
                            assert(pre[i as int].0@ != pre[w].0@);
                        }
                        assert(false);
                    }
                    assert forall|h: Seq<u8>|
                        h != hash@ && old(self).cache_has(h) implies #[trigger] self.cache_has(h) && self.cache_get(h) == old(self).cache_get(h) by {
                        let j = choose|j: int|
                            0 <= j < pre.len() && (#[trigger] pre[j]).0@ == h;
                        assert(self.cache@[j].0@ == h);
                        let j2 = choose|j2: int|
                            0 <= j2 < self.cache@.len() && (#[trigger] self.cache@[j2]).0@ == h;
                        assert(pre[j2].0@ == h);
                        let j0 = choose|j0: int|
                            0 <= j0 < pre.len() && (#[trigger] pre[j0]).0@ == h;
                        assert(pre[j0] == pre[j2]);
                    }
                }
                return ;
            }
            i = i + 1;
        }
        proof {
            assert(pre == old(self).spec_entries());
            assert forall|a: int, c: int| 0 <= a < c < pre.len() implies (#[trigger] pre[a]).0@
                != (#[trigger] pre[c]).0@ by {
                assert((old(self).spec_entries()[a]).0@ != (old(self).spec_entries()[c]).0@);
            }
        }
        self.cache.push((hash, resp));
        proof {
            assert(self.cache@.drop_last() =~= pre);
            assert(self.cache@[n as int].0@ == hash@);
            assert forall|j: int, j2: int|
                0 <= j < j2 < self.cache@.len() implies (#[trigger] self.cache@[j]).0@ != (
                #[trigger] self.cache@[j2]).0@ by {
                if j2 < n {
                    assert(pre[j].0@ != pre[j2].0@);
                } else {
                    assert(self.cache@[j].0@ == pre[j].0@);
                    assert(pre[j].0@ != hash@);
                }
            }
            assert forall|h: Seq<u8>| self.cache_has(h) implies old(self).cache_keys().insert(hash@).contains(h) by {
                let j = choose|j: int|
                    0 <= j < self.cache@.len() && (#[trigger] self.cache@[j]).0@ == h;
                if j < n {
                    assert(pre[j].0@ == h);
                }
            }
            assert forall|h: Seq<u8>| old(self).cache_keys().insert(hash@).contains(h) implies
                self.cache_has(h) by {
                if h == hash@ {
                    assert(self.cache@[n as int].0@ == h);
                } else {
                    let j = choose|j: int| 0 <= j < pre.len() && (#[trigger] pre[j]).0@ == h;
                    assert(self.cache@[j].0@ == h);
                }
            }
            let w = choose|j: int|
                0 <= j < self.cache@.len() && (#[trigger] self.cache@[j]).0@ == hash@;
            if w != n {
                assert(pre[w].0@ == hash@);
                assert(false);
            }
            assert forall|h: Seq<u8>|
                h != hash@ && old(self).cache_has(h) implies #[trigger] self.cache_has(h)
                && self.cache_get(h) == old(self).cache_get(h) by {
                let j = choose|j: int| 0 <= j < pre.len() && (#[trigger] pre[j]).0@ == h;
                assert(self.cache@[j].0@ == h);
                let j2 = choose|j2: int|
                    0 <= j2 < self.cache@.len() && (#[trigger] self.cache@[j2]).0@ == h;
                assert(j2 < n);
                assert(pre[j2].0@ == h);
                let j0 = choose|j0: int| 0 <= j0 < pre.len() && (#[trigger] pre[j0]).0@ == h;
                assert(pre[j0] == pre[j2]);
            }
        }
    }

    /// Looks up a response by request hash; a hit bumps the hit counter and
    /// returns a copy of the cached value, a miss bumps the miss counter.
    pub fn lookup(&mut self, request_hash: [u8; 32]) -> (r: Option<CachedResponse>)
        requires
            old(self).wf(),
        ensures
            final(self).wf(),
            r is Some <==> old(self).cache_has(request_hash@),
            r matches Some(resp) ==> resp_model(resp) == resp_model(
                old(self).cache_get(request_hash@),
            ),
            final(self).spec_entries() == old(self).spec_entries(),
            final(self).spec_recordings() == old(self).spec_recordings(),
            final(self).spec_strategy() == old(self).spec_strategy(),
            old(self).cache_has(request_hash@) ==> final(self).spec_hits() == (if old(self).spec_hits() < usize::MAX {
                old(self).spec_hits() + 1
            } else {
                old(self).spec_hits() as int
            }) && final(self).spec_misses() == old(self).spec_misses(),
            !old(self).cache_has(request_hash@) ==> final(self).spec_misses() == (if old(self).spec_misses() < usize::MAX {
                old(self).spec_misses() + 1
            } else {
                old(self).spec_misses() as int
            }) && final(self).spec_hits() == old(self).spec_hits(),
    {
        let n = self.cache.len();
        let mut i: usize = 0;
        while i < n
            invariant
                0 <= i <= n,
                *self == *old(self),
                old(self).wf(),
                n == self.cache@.len(),
                forall|j: int| 0 <= j < i ==> (#[trigger] self.cache@[j]).0@ != request_hash@,
            decreases n - i,
        {
            if crate::byteseq::bytes32_eq(&self.cache[i].0, &request_hash) {
                let resp = self.cache[i].1.clone();
                self.hits = self.hits.saturating_add(1);
                proof {
                    assert(old(self).spec_entries()[i as int].0@ == request_hash@);
                    let j = choose|j: int|
                        0 <= j < old(self).spec_entries().len() && (#[trigger] old(self).spec_entries()[j]).0@ == request_hash@;
                    assert(old(self).spec_entries()[j] == old(self).spec_entries()[i as int]);
                }
                return Some(resp);
            }
            i = i + 1;
        }
        proof {
            if old(self).cache_has(request_hash@) {
                let j = choose|j: int|
                    0 <= j < old(self).spec_entries().len() && (#[trigger] old(
                        self,
                    ).spec_entries()[j]).0@ == request_hash@;
                assert(self.cache@[j].0@ == request_hash@);
                assert(false);
            }
        }
        self.misses = self.misses.saturating_add(1);
        None
    }

    /// Loads every interaction of a recording image into the cache, keyed
    /// by request hash, in slot order (so a later slot with the same hash
    /// wins). Entries whose response blob cannot be located or parsed are
    /// skipped. Fails exactly when the image itself does not validate.
    #[verifier::rlimit(60)]
    pub fn load_recording(&mut self, test_name: &str, image: &[u8]) -> (r: Result<(), OuliError>)
        requires
            old(self).wf(),
        ensures
            final(self).wf(),
            r is Ok <==> image_valid(image@),
            r is Err ==> *final(self) == *old(self),
            final(self).spec_hits() == old(self).spec_hits(),
            final(self).spec_misses() == old(self).spec_misses(),
            final(self).spec_strategy() == old(self).spec_strategy(),
            r is Ok ==> loaded_from(*old(self), *final(self), image@, test_name@),
    {
        let reader = match RecordingReader::open(slice_to_vec(image)) {
            Ok(rd) => rd,
            Err(e) => {
                return Err(e);
            },
        };
        let ghost b = image@;
        let entries = reader.all_entries();
        let count = entries.len();
        let ghost pre = *self;
        let ghost mut added: Set<Seq<u8>> = Set::<Seq<u8>>::empty();
        proof {
            broadcast use vstd::set::group_set_axioms;

            assert(pre == *old(self));
            assert(keys_upto(b, 0) =~= Set::<Seq<u8>>::empty());
            assert(self.cache_keys() =~= pre.cache_keys() + keys_upto(b, 0));
            assert(added =~= keys_upto(b, 0).difference(pre.cache_keys()));
        }
        let mut i: usize = 0;
        while i < count
            invariant
                0 <= i <= count,
                self.wf(),
                pre.wf(),
                pre == *old(self),
                b == image@,
                count == hdr_interaction_count(b),
                entries@.len() == count,
                forall|j: int|
                    0 <= j < count ==> entry_matches(#[trigger] entries@[j], entry_slice(b, j)),
                reader.wf(),
                reader.spec_bytes() == b,
                self.spec_hits() == pre.spec_hits(),
                self.spec_misses() == pre.spec_misses(),
                self.spec_strategy() == pre.spec_strategy(),
                self.spec_recordings() == pre.spec_recordings(),
                self.cache_keys() =~= pre.cache_keys() + keys_upto(b, i as int),
                forall|jj: int|
                    0 <= jj < i && #[trigger] wins_upto(b, jj, i as int) ==> self.cache_has(
                        slot_request_hash(b, jj),
                    ) && {
                        let m = spec_parse_response(slot_resp_blob(b, jj))->Some_0;
                        let stored = self.cache_get(slot_request_hash(b, jj));
                        &&& stored.status == m.0
                        &&& stored.body@ == m.2
                        &&& stored.headers@.len() == m.1.len()
                        &&& forall|kk: int|
                            0 <= kk < m.1.len() ==> (valid_utf8((#[trigger] m.1[kk]).0)
                                ==> stored.headers@[kk].0@ == decode_utf8(m.1[kk].0))
                        &&& forall|kk: int|
                            0 <= kk < m.1.len() ==> (valid_utf8((#[trigger] m.1[kk]).1)
                                ==> stored.headers@[kk].1@ == decode_utf8(m.1[kk].1))
                    },
                forall|h: Seq<u8>|
                    !keys_upto(b, i as int).contains(h) && pre.cache_has(h) ==> #[trigger] self.cache_has(
                        h,
                    ) && self.cache_get(h) == pre.cache_get(h),
                keys_upto(b, i as int).subset_of(pre.cache_keys()) ==> self.spec_entries().len()
                    == pre.spec_entries().len(),
                added.finite(),
                added =~= keys_upto(b, i as int).difference(pre.cache_keys()),
                self.spec_entries().len() == pre.spec_entries().len() + added.len(),
            decreases count - i,
        {
            let entry = entries[i];
            let blob = match reader.read_response(&entry) {
                Ok(v) => v,
                Err(_) => {
                    proof {
                        lemma_keys_upto_step(b, i as int);
                        assert(entry.response_offset == slot_resp_off(b, i as int));
                        assert(entry.response_size == slot_resp_size(b, i as int));
                        assert(!slot_loaded(b, i as int));
                        assert(keys_upto(b, i + 1) =~= keys_upto(b, i as int));
                        lemma_wins_upto_not_loaded(b, i as int);
                    }

            proof {
                let inew = i + 1;
                assert forall|jj: int|
                    0 <= jj < inew && #[trigger] wins_upto(b, jj, inew) implies self.cache_has(
                    slot_request_hash(b, jj),
                ) && {
                    let m = spec_parse_response(slot_resp_blob(b, jj))->Some_0;
                    let stored = self.cache_get(slot_request_hash(b, jj));
                    &&& stored.status == m.0
                    &&& stored.body@ == m.2
                    &&& stored.headers@.len() == m.1.len()
                    &&& forall|kk: int|
                        0 <= kk < m.1.len() ==> (valid_utf8((#[trigger] m.1[kk]).0)
                            ==> stored.headers@[kk].0@ == decode_utf8(m.1[kk].0))
                    &&& forall|kk: int|
                        0 <= kk < m.1.len() ==> (valid_utf8((#[trigger] m.1[kk]).1)
                            ==> stored.headers@[kk].1@ == decode_utf8(m.1[kk].1))
                } by {
                    if jj < i as int {
                        assert(wins_upto(b, jj, i as int));
                    } else {
                        assert(slot_loaded(b, jj));
                        assert(false);
                    }
                }
                assert(keys_upto(b, inew) =~= keys_upto(b, i as int));
                assert(added =~= keys_upto(b, inew).difference(pre.cache_keys()));
                assert forall|h: Seq<u8>|
                    !keys_upto(b, inew).contains(h) && pre.cache_has(h) implies
                    #[trigger] self.cache_has(h) && self.cache_get(h) == pre.cache_get(h) by {
                    assert(!keys_upto(b, i as int).contains(h));
                }
            }
                    i = i + 1;
                    continue ;
                },
            };
            proof {
                assert(entry.response_offset == slot_resp_off(b, i as int));
                assert(entry.response_size == slot_resp_size(b, i as int));
                assert(blob@ == slot_resp_blob(b, i as int));
            }
            let resp = match deserialize_response(blob.as_slice()) {
                Ok(v) => v,
                Err(_) => {
                    proof {
                        lemma_keys_upto_step(b, i as int);
                        assert(!slot_loaded(b, i as int));
                        assert(keys_upto(b, i + 1) =~= keys_upto(b, i as int));
                        lemma_wins_upto_not_loaded(b, i as int);
                    }

            proof {
                let inew = i + 1;
                assert forall|jj: int|
                    0 <= jj < inew && #[trigger] wins_upto(b, jj, inew) implies self.cache_has(
                    slot_request_hash(b, jj),
                ) && {
                    let m = spec_parse_response(slot_resp_blob(b, jj))->Some_0;
                    let stored = self.cache_get(slot_request_hash(b, jj));
                    &&& stored.status == m.0
                    &&& stored.body@ == m.2
                    &&& stored.headers@.len() == m.1.len()
                    &&& forall|kk: int|
                        0 <= kk < m.1.len() ==> (valid_utf8((#[trigger] m.1[kk]).0)
                            ==> stored.headers@[kk].0@ == decode_utf8(m.1[kk].0))
                    &&& forall|kk: int|
                        0 <= kk < m.1.len() ==> (valid_utf8((#[trigger] m.1[kk]).1)
                            ==> stored.headers@[kk].1@ == decode_utf8(m.1[kk].1))
                } by {
                    if jj < i as int {
                        assert(wins_upto(b, jj, i as int));
                    } else {
                        assert(slot_loaded(b, jj));
                        assert(false);
                    }
                }
                assert(keys_upto(b, inew) =~= keys_upto(b, i as int));
                assert(added =~= keys_upto(b, inew).difference(pre.cache_keys()));
                assert forall|h: Seq<u8>|
                    !keys_upto(b, inew).contains(h) && pre.cache_has(h) implies
                    #[trigger] self.cache_has(h) && self.cache_get(h) == pre.cache_get(h) by {
                    assert(!keys_upto(b, i as int).contains(h));
                }
            }
                    i = i + 1;
                    continue ;
                },
            };
            proof {
                assert(slot_loaded(b, i as int));
            }
            let ghost before = *self;
            let ghost respg = resp;
            self.insert_response(entry.request_hash, resp);
            proof {
                lemma_keys_upto_step(b, i as int);
                assert(entry.request_hash@ == slot_request_hash(b, i as int));
                let hcur = slot_request_hash(b, i as int);
                assert(keys_upto(b, i + 1) =~= keys_upto(b, i as int).insert(hcur));
                assert(self.cache_keys() =~= pre.cache_keys() + keys_upto(b, i + 1));
                lemma_wins_upto_loaded(b, i as int);
                let inew = i + 1;
                let mcur = spec_parse_response(slot_resp_blob(b, i as int))->Some_0;
                assert(entry.request_hash@ == hcur);
                assert(self.cache_keys() =~= before.cache_keys().insert(hcur));
                assert(self.cache_keys().contains(hcur));
                assert(self.cache_has(hcur));
                // the value stored for the current slot matches its blob
                assert(resp_model(self.cache_get(hcur)) == resp_model(respg));
                assert(self.cache_get(hcur).status == mcur.0);
                assert(self.cache_get(hcur).body@ == mcur.2);
                assert(self.cache_get(hcur).headers@.map_values(
                    |p: (String, String)| (p.0@, p.1@),
                ) == respg.headers@.map_values(|p: (String, String)| (p.0@, p.1@)));
                assert(self.cache_get(hcur).headers@.map_values(
                    |p: (String, String)| (p.0@, p.1@),
                ).len() == self.cache_get(hcur).headers@.len());
                assert(respg.headers@.map_values(|p: (String, String)| (p.0@, p.1@)).len()
                    == respg.headers@.len());
                assert(self.cache_get(hcur).headers@.len() == respg.headers@.len());
                assert(respg.headers@.len() == mcur.1.len());
                assert(self.cache_get(hcur).headers@.len() == mcur.1.len());
                assert forall|kk: int| 0 <= kk < mcur.1.len() implies (valid_utf8(
                    (#[trigger] mcur.1[kk]).0,
                ) ==> self.cache_get(hcur).headers@[kk].0@ == decode_utf8(mcur.1[kk].0))
                    && (valid_utf8(mcur.1[kk].1) ==> self.cache_get(hcur).headers@[kk].1@
                    == decode_utf8(mcur.1[kk].1)) by {
                    assert(self.cache_get(hcur).headers@.map_values(
                        |p: (String, String)| (p.0@, p.1@),
                    )[kk] == respg.headers@.map_values(|p: (String, String)| (p.0@, p.1@))[kk]);
                }
                // all winners among the first i+1 slots have their values
                assert forall|jj: int|
                    0 <= jj < inew && #[trigger] wins_upto(b, jj, inew) implies self.cache_has(
                    slot_request_hash(b, jj),
                ) && {
                    let m = spec_parse_response(slot_resp_blob(b, jj))->Some_0;
                    let stored = self.cache_get(slot_request_hash(b, jj));
                    &&& stored.status == m.0
                    &&& stored.body@ == m.2
                    &&& stored.headers@.len() == m.1.len()
                    &&& forall|kk: int|
                        0 <= kk < m.1.len() ==> (valid_utf8((#[trigger] m.1[kk]).0)
                            ==> stored.headers@[kk].0@ == decode_utf8(m.1[kk].0))
                    &&& forall|kk: int|
                        0 <= kk < m.1.len() ==> (valid_utf8((#[trigger] m.1[kk]).1)
                            ==> stored.headers@[kk].1@ == decode_utf8(m.1[kk].1))
                } by {
                    if jj < i as int {
                        assert(wins_upto(b, jj, i as int));
                        assert(slot_request_hash(b, jj) != hcur);
                        assert(before.cache_has(slot_request_hash(b, jj)));
                        assert(before.cache_keys().contains(slot_request_hash(b, jj)));
                        assert(self.cache_keys().contains(slot_request_hash(b, jj)));
                        assert(self.cache_has(slot_request_hash(b, jj)));
                        assert(self.cache_get(slot_request_hash(b, jj)) == before.cache_get(
                            slot_request_hash(b, jj),
                        ));
                    } else {
                        assert(jj == i as int);
                        assert(self.cache_has(hcur));
                    }
                }
                // untouched keys keep their values
                assert forall|h: Seq<u8>|
                    !keys_upto(b, inew).contains(h) && pre.cache_has(h) implies
                    #[trigger] self.cache_has(h) && self.cache_get(h) == pre.cache_get(h) by {
                    assert(!keys_upto(b, i as int).contains(h));
                    assert(h != hcur);
                    assert(before.cache_has(h));
                    assert(before.cache_get(h) == pre.cache_get(h));
                    assert(before.cache_keys().contains(h));
                    assert(self.cache_keys().contains(h));
                    assert(self.cache_has(h));
                    assert(self.cache_get(h) == before.cache_get(h));
                }
                // loading only already-present keys keeps the entry count
                if keys_upto(b, inew).subset_of(pre.cache_keys()) {
                    assert(keys_upto(b, i as int).subset_of(pre.cache_keys()));
                    assert(before.spec_entries().len() == pre.spec_entries().len());
                    assert(keys_upto(b, inew).contains(hcur));
                    assert(pre.cache_keys().contains(hcur));
                    assert(before.cache_keys().contains(hcur));
                    assert(before.cache_has(hcur));
                    assert(self.spec_entries().len() == before.spec_entries().len());
                }
                // track the keys this load adds to the cache
                broadcast use vstd::set::group_set_axioms;

                if pre.cache_keys().contains(hcur) || keys_upto(b, i as int).contains(hcur) {
                    assert(before.cache_keys().contains(hcur));
                    assert(before.cache_has(hcur));
                    assert(self.spec_entries().len() == before.spec_entries().len());
                    assert(added =~= keys_upto(b, inew).difference(pre.cache_keys()));
                } else {
                    assert(!before.cache_keys().contains(hcur));
                    assert(!before.cache_has(hcur));
                    assert(self.spec_entries().len() == before.spec_entries().len() + 1);
                    assert(!added.contains(hcur));
                    let added0 = added;
                    added = added.insert(hcur);
                    assert(added.len() == added0.len() + 1);
                    assert(added =~= keys_upto(b, inew).difference(pre.cache_keys()));
                }
            }
            i = i + 1;
        }
        proof {
            lemma_keys_upto_full(b);
            assert(keys_upto(b, count as int) =~= image_keys(b));
            assert forall|i2: int| #[trigger] slot_wins(b, i2) implies 0 <= i2 < count
                && wins_upto(b, i2, count as int) by {}
        }
        let ghost rec_pre = self.recordings@;
        let ghost at_exit = *self;
        self.recordings.push(test_name.to_owned());
        proof {
            assert(self.spec_recordings() =~= rec_pre.map_values(|s: String| s@).push(
                test_name@,
            ));
            assert(self.cache@ == at_exit.cache@);
            assert(self.spec_entries() == at_exit.spec_entries());
            assert(self.wf());
            assert(at_exit.cache_keys() =~= pre.cache_keys() + image_keys(b));
            assert(self.cache_keys() =~= at_exit.cache_keys());
            assert(self.cache_keys() =~= pre.cache_keys() + image_keys(b));
            broadcast use vstd::set::group_set_axioms;

            assert(added =~= keys_upto(b, count as int).difference(pre.cache_keys()));
            assert(image_keys(b).difference(pre.cache_keys()) =~= added);
            assert(image_keys(b).difference(pre.cache_keys()).finite());
            assert(at_exit.spec_entries().len() == pre.spec_entries().len() + added.len());
            assert(self.spec_entries().len() == pre.spec_entries().len() + image_keys(
                b,
            ).difference(pre.cache_keys()).len());
            assert forall|h: Seq<u8>|
                !image_keys(b).contains(h) && pre.cache_has(h) implies #[trigger] self.cache_has(
                h,
            ) && self.cache_get(h) == pre.cache_get(h) by {
                assert(!keys_upto(b, hdr_interaction_count(b) as int).contains(h));
                assert(at_exit.cache_has(h));
                assert(at_exit.cache_get(h) == pre.cache_get(h));
                let j = choose|j: int|
                    0 <= j < at_exit.spec_entries().len() && (#[trigger] at_exit.spec_entries()[j]).0@
                        == h;
                assert(self.spec_entries()[j].0@ == h);
                assert(self.cache_has(h));
                let j2 = choose|j2: int|
                    0 <= j2 < self.spec_entries().len() && (#[trigger] self.spec_entries()[j2]).0@
                        == h;
                if j2 != j {
                    if j2 < j {
                        assert(self.spec_entries()[j2].0@ != self.spec_entries()[j].0@);
                    } else {
                        assert(self.spec_entries()[j].0@ != self.spec_entries()[j2].0@);
                    }
                    assert(false);
                }
                let j3 = choose|j3: int|
                    0 <= j3 < at_exit.spec_entries().len() && (#[trigger] at_exit.spec_entries()[j3]).0@
                        == h;
                if j3 != j {
                    if j3 < j {
                        assert(at_exit.spec_entries()[j3].0@ != at_exit.spec_entries()[j].0@);
                    } else {
                        assert(at_exit.spec_entries()[j].0@ != at_exit.spec_entries()[j3].0@);
                    }
                    assert(false);
                }
                assert(self.cache_get(h) == self.spec_entries()[j2].1);
                assert(at_exit.cache_get(h) == at_exit.spec_entries()[j3].1);
            }
        }
        Ok(())
    }

    /// Warms the cache: under eager warming every given recording is
    /// loaded (unreadable ones are skipped); under lazy warming nothing
    /// happens. Never resets the hit and miss counters.
    pub fn warm(&mut self, available: &Vec<(String, Vec<u8>)>) -> (r: Result<(), OuliError>)
        requires
            old(self).wf(),
        ensures
            final(self).wf(),
            r is Ok,
            final(self).spec_hits() == old(self).spec_hits(),
            final(self).spec_misses() == old(self).spec_misses(),
            final(self).spec_strategy() == old(self).spec_strategy(),
            old(self).spec_strategy() == WarmingStrategy::Lazy ==> *final(self) == *old(self),
            old(self).spec_strategy() == WarmingStrategy::Eager ==> {
                &&& final(self).cache_keys() =~= old(self).cache_keys() + list_keys(available@)
                &&& list_keys(available@).subset_of(old(self).cache_keys()) ==> final(self).spec_entries().len() == old(self).spec_entries().len()
                &&& final(self).spec_entries().len() == old(self).spec_entries().len()
                    + list_added(old(self).cache_keys(), available@)
            },
    {
        match self.warming_strategy {
            WarmingStrategy::Lazy => Ok(()),
            WarmingStrategy::Eager => {
                let ghost pre = *self;
                let n = available.len();
                let mut i: usize = 0;
                while i < n
                    invariant
                        0 <= i <= n,
                        self.wf(),
                        pre.wf(),
                        n == available@.len(),
                        self.spec_hits() == pre.spec_hits(),
                        self.spec_misses() == pre.spec_misses(),
                        self.spec_strategy() == pre.spec_strategy(),
                        self.cache_keys() =~= pre.cache_keys() + list_keys(available@.take(
                            i as int,
                        )),
                        list_keys(available@.take(i as int)).subset_of(pre.cache_keys())
                            ==> self.spec_entries().len() == pre.spec_entries().len(),
                        self.spec_entries().len() == pre.spec_entries().len() + list_added(
                            pre.cache_keys(),
                            available@.take(i as int),
                        ),
                    decreases n - i,
                {
                    let name: &str = available[i].0.as_str();
                    let img: &Vec<u8> = &available[i].1;
                    let ghost before = *self;
                    let res = self.load_recording(name, img.as_slice());
                    proof {
                        assert(available@.take(i + 1).drop_last() =~= available@.take(i as int));
                        assert(available@.take(i + 1).last() == available@[i as int]);
                        if image_valid(available@[i as int].1@) {
                            assert(res is Ok);
                            assert(list_keys(available@.take(i + 1)) =~= list_keys(
                                available@.take(i as int),
                            ) + image_keys(available@[i as int].1@));
                            // the load's cardinality clause, over the keys held
                            // before this image
                            let bimg = available@[i as int].1@;
                            assert(loaded_from(before, *self, bimg, available@[i as int].0@));
                            assert(self.spec_entries().len() == before.spec_entries().len()
                                + image_keys(bimg).difference(before.cache_keys()).len());
                            assert(before.cache_keys() =~= pre.cache_keys() + list_keys(
                                available@.take(i as int),
                            ));
                            assert(image_keys(bimg).difference(before.cache_keys())
                                =~= image_keys(bimg).difference(
                                pre.cache_keys() + list_keys(available@.take(i as int)),
                            ));
                            assert(list_added(pre.cache_keys(), available@.take(i + 1))
                                == list_added(pre.cache_keys(), available@.take(i as int))
                                + image_keys(bimg).difference(
                                pre.cache_keys() + list_keys(available@.take(i as int)),
                            ).len());
                        } else {
                            assert(res is Err);
                            assert(list_keys(available@.take(i + 1)) =~= list_keys(
                                available@.take(i as int),
                            ));
                            assert(list_added(pre.cache_keys(), available@.take(i + 1))
                                == list_added(pre.cache_keys(), available@.take(i as int)));
                        }
                    }
                    i = i + 1;
                }
                proof {
                    assert(available@.take(n as int) =~= available@);
                }
                Ok(())
            },
        }
    }

    /// Number of cache hits.
    pub fn hit_count(&self) -> (r: usize)
        ensures
            r == self.spec_hits(),
    {
        self.hits
    }

    /// Number of cache misses.
    pub fn miss_count(&self) -> (r: usize)
        ensures
            r == self.spec_misses(),
    {
        self.misses
    }

    /// Number of cached responses.
    pub fn size(&self) -> (r: usize)
        ensures
            r == self.spec_entries().len(),
    {
        self.cache.len()
    }

    /// Empties the cache and resets the counters.
    pub fn clear(&mut self)
        ensures
            final(self).wf(),
            final(self).spec_entries().len() == 0,
            final(self).spec_recordings().len() == 0,
            final(self).spec_hits() == 0,
            final(self).spec_misses() == 0,
            final(self).spec_strategy() == old(self).spec_strategy(),
    {
        self.cache.clear();
        self.recordings.clear();
        self.hits = 0;
        self.misses = 0;
    }
}

/// The request hashes contributed by the slots before `k`.
pub open spec fn keys_upto(b: Seq<u8>, k: int) -> Set<Seq<u8>> {
    Set::new(
        |h: Seq<u8>| exists|i: int| 0 <= i < k && slot_loaded(b, i) && slot_request_hash(b, i) == h,
    )
}

/// Slot `i` wins among the slots before `k`.
pub open spec fn wins_upto(b: Seq<u8>, i: int, k: int) -> bool {
    &&& slot_loaded(b, i)
    &&& forall|j: int|
        i < j < k && slot_loaded(b, j) ==> slot_request_hash(b, j) != slot_request_hash(b, i)
}

proof fn lemma_keys_upto_step(b: Seq<u8>, k: int)
    requires
        0 <= k,
    ensures
        slot_loaded(b, k) ==> keys_upto(b, k + 1) =~= keys_upto(b, k).insert(
            slot_request_hash(b, k),
        ),
        !slot_loaded(b, k) ==> keys_upto(b, k + 1) =~= keys_upto(b, k),
{
}

/// A slot that is not loaded does not disturb the winners before it.
proof fn lemma_wins_upto_not_loaded(b: Seq<u8>, k: int)
    requires
        !slot_loaded(b, k),
    ensures
        forall|i: int|
            0 <= i < k ==> ((#[trigger] wins_upto(b, i, k)) <==> (#[trigger] wins_upto(
                b,
                i,
                k + 1,
            ))),
{
}

/// A loaded slot becomes the winner for its hash among the slots up to and
/// including it, and dethrones earlier winners with the same hash.
proof fn lemma_wins_upto_loaded(b: Seq<u8>, k: int)
    requires
        slot_loaded(b, k),
    ensures
        wins_upto(b, k, k + 1),
        forall|i: int|
            0 <= i < k ==> ((#[trigger] wins_upto(b, i, k + 1)) <==> ((#[trigger] wins_upto(
                b,
                i,
                k,
            )) && slot_request_hash(b, i) != slot_request_hash(b, k))),
{
}

/// After the last slot, the winners are exactly the slots that win overall.
proof fn lemma_keys_upto_full(b: Seq<u8>)
    ensures
        keys_upto(b, hdr_interaction_count(b) as int) =~= image_keys(b),
        forall|i: int|
            #![trigger wins_upto(b, i, hdr_interaction_count(b) as int)]
            #![trigger slot_wins(b, i)]
            wins_upto(b, i, hdr_interaction_count(b) as int) <==> slot_wins(b, i),
{
}

/// The request hashes contributed by a list of recordings; images that do
/// not validate contribute nothing.
pub open spec fn list_keys(recs: Seq<(String, Vec<u8>)>) -> Set<Seq<u8>>
    decreases recs.len(),
{
    if recs.len() == 0 {
        Set::<Seq<u8>>::empty()
    } else {
        list_keys(recs.drop_last()) + (if image_valid(recs.last().1@) {
            image_keys(recs.last().1@)
        } else {
            Set::<Seq<u8>>::empty()
        })
    }
}

/// The number of cache entries a list of recordings adds when loaded in
/// order onto a cache holding the keys in `base`: each valid image
/// contributes its hashes not seen before.
pub open spec fn list_added(base: Set<Seq<u8>>, recs: Seq<(String, Vec<u8>)>) -> int
    decreases recs.len(),
{
    if recs.len() == 0 {
        0
    } else {
        list_added(base, recs.drop_last()) + (if image_valid(recs.last().1@) {
            image_keys(recs.last().1@).difference(base + list_keys(recs.drop_last())).len() as int
        } else {
            0
        })
    }
}

/// Warming is idempotent on the cached key set: warming again with the same
/// recordings leaves the set of cached hashes (and with it the cache size)
/// unchanged, and the hit and miss counters are never reset by warming.
pub proof fn lemma_warm_idempotent_keys(k: Set<Seq<u8>>, recs: Seq<(String, Vec<u8>)>)
    ensures
        (k + list_keys(recs)) + list_keys(recs) =~= k + list_keys(recs),
        list_keys(recs).subset_of(k + list_keys(recs)),
{
}

} // verus!
