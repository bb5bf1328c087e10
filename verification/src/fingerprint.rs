//! Request fingerprinting: a canonical, order-independent encoding of a
//! request is hashed with SHA-256 together with the predecessor hash, so that
//! semantically identical requests hash identically and the hash is
//! position-sensitive within a session.
//!
//! The canonical encoding concatenates, in order and each length-prefixed by
//! a 32-bit little-endian byte count: the ASCII-uppercased method, the
//! normalized path, the query pairs sorted by key, the header pairs with
//! lowercased names and trimmed values sorted by name, the body, and finally
//! the raw 32 bytes of the predecessor hash.

use vstd::prelude::*;
use vstd::bytes::{spec_u32_to_le_bytes, u32_to_le_bytes};
use vstd::utf8::encode_utf8;
use vstd::string::StrSliceExecFns;
use crate::byteseq::{
    spec_upper, spec_lower, spec_trim, upper_bytes, lower_bytes, trim_bytes,
};
use crate::pairsort::{
    SpecPair, BytePair, pair_view, pairs_view, sort_by_key, sort_pairs, distinct_keys,
    lemma_sort_of_permutation,
};
use crate::hashes::{sha256_of, sha256};

verus! {

/// The hash that seeds every session's chain: the fingerprint of the empty
/// request (empty method, path `/`, no query, no headers, no body) with a
/// predecessor of 32 zero bytes.
pub const CHAIN_HEAD_HASH: [u8; 32] = [
    0xb4, 0xd6, 0xe6, 0x0a, 0x9b, 0x97, 0xe7, 0xb9, 0x8c, 0x63, 0xdf, 0x93, 0x08, 0x72, 0x8c, 0x5c,
    0x88, 0xc0, 0xb4, 0x0c, 0x39, 0x80, 0x46, 0x77, 0x2c, 0x63, 0x44, 0x7b, 0x94, 0x60, 0x8b, 0x4d,
];

/// A parsed request as handed over by the wire layer.
#[derive(Debug, Clone)]
pub struct Request {
    /// HTTP method.
    pub method: String,
    /// Request path.
    pub path: String,
    /// Query pairs, in wire order.
    pub query: Vec<(String, String)>,
    /// Header pairs, in wire order.
    pub headers: Vec<(String, String)>,
    /// Request body.
    pub body: Vec<u8>,
}

/// The UTF-8 bytes of each pair of strings.
pub open spec fn str_pairs_bytes(v: Seq<(String, String)>) -> Seq<SpecPair> {
    v.map_values(|p: (String, String)| (encode_utf8(p.0@), encode_utf8(p.1@)))
}

impl Request {
    /// UTF-8 bytes of the method.
    pub open spec fn method_bytes(self) -> Seq<u8> {
        encode_utf8(self.method@)
    }

    /// UTF-8 bytes of the path.
    pub open spec fn path_bytes(self) -> Seq<u8> {
        encode_utf8(self.path@)
    }

    /// Byte view of the query pairs.
    pub open spec fn query_pairs(self) -> Seq<SpecPair> {
        str_pairs_bytes(self.query@)
    }

    /// Byte view of the header pairs.
    pub open spec fn header_pairs(self) -> Seq<SpecPair> {
        str_pairs_bytes(self.headers@)
    }

    /// Byte view of the header pairs after canonicalization of each pair.
    pub open spec fn normalized_headers(self) -> Seq<SpecPair> {
        self.header_pairs().map_values(|p: SpecPair| norm_header(p))
    }
}

/// A 32-bit little-endian byte count followed by the bytes themselves.
pub open spec fn len_prefixed(s: Seq<u8>) -> Seq<u8> {
    spec_u32_to_le_bytes(s.len() as u32) + s
}

/// Path normalization: trim ASCII whitespace at both ends; prepend `/` when
/// the result is empty or does not start with `/`.
pub open spec fn norm_path_bytes(p: Seq<u8>) -> Seq<u8> {
    let t = spec_trim(p);
    if t.len() == 0 || t[0] != 47 {
        seq![47u8] + t
    } else {
        t
    }
}

/// Header canonicalization: lowercase the name, trim ASCII whitespace around
/// the value.
pub open spec fn norm_header(p: SpecPair) -> SpecPair {
    (spec_lower(p.0), spec_trim(p.1))
}

/// Encoding of one pair: key and value, each length-prefixed.
pub open spec fn pair_encoding(p: SpecPair) -> Seq<u8> {
    len_prefixed(p.0) + len_prefixed(p.1)
}

/// Encoding of a pair sequence, in order.
pub open spec fn pairs_encoding(ps: Seq<SpecPair>) -> Seq<u8>
    decreases ps.len(),
{
    if ps.len() == 0 {
        Seq::<u8>::empty()
    } else {
        pair_encoding(ps[0]) + pairs_encoding(ps.drop_first())
    }
}

/// The canonical byte string hashed to produce a fingerprint.
pub open spec fn canonical_encoding(
    method: Seq<u8>,
    path: Seq<u8>,
    query: Seq<SpecPair>,
    headers: Seq<SpecPair>,
    body: Seq<u8>,
    prev: Seq<u8>,
) -> Seq<u8> {
    len_prefixed(spec_upper(method)) + len_prefixed(norm_path_bytes(path)) + pairs_encoding(
        sort_by_key(query),
    ) + pairs_encoding(sort_by_key(headers.map_values(|p: SpecPair| norm_header(p))))
        + len_prefixed(body) + prev
}

/// The fingerprint of a request with the given predecessor hash.
pub open spec fn spec_fingerprint(r: Request, prev: Seq<u8>) -> Seq<u8> {
    sha256_of(
        canonical_encoding(
            r.method_bytes(),
            r.path_bytes(),
            r.query_pairs(),
            r.header_pairs(),
            r.body@,
            prev,
        ),
    )
}

/// A byte count that fits in a 32-bit length prefix.
pub open spec fn fits_u32(n: nat) -> bool {
    n <= 0xffff_ffff
}

/// Key and value of a pair both fit their length prefixes.
pub open spec fn pair_fits(p: SpecPair) -> bool {
    fits_u32(p.0.len()) && fits_u32(p.1.len())
}

/// Every length-prefixed component of the request fits its 32-bit prefix.
/// These are machine limits of the encoding, far above the configured
/// request-size limits.
pub open spec fn request_fits(r: Request) -> bool {
    &&& fits_u32(r.method_bytes().len())
    &&& r.path_bytes().len() < 0xffff_ffff
    &&& forall|i: int| 0 <= i < r.query_pairs().len() ==> pair_fits(#[trigger] r.query_pairs()[i])
    &&& forall|i: int|
        0 <= i < r.header_pairs().len() ==> pair_fits(#[trigger] r.header_pairs()[i])
    &&& fits_u32(r.body@.len())
}

/// Appends a 32-bit little-endian length prefix and the bytes themselves.
fn push_len_prefixed(buf: &mut Vec<u8>, v: &[u8])
    requires
        v@.len() <= 0xffff_ffff,
    ensures
        final(buf)@ == old(buf)@ + len_prefixed(v@),
{
    let mut lp = u32_to_le_bytes(v.len() as u32);
    buf.append(&mut lp);
    buf.extend_from_slice(v);
}

/// Encoding one more pair extends the encoding of the pairs before it.
proof fn lemma_pairs_encoding_push(s: Seq<SpecPair>, x: SpecPair)
    ensures
        pairs_encoding(s.push(x)) =~= pairs_encoding(s) + pair_encoding(x),
    decreases s.len(),
{
    if s.len() == 0 {
        assert(s.push(x)[0] == x);
        assert(s.push(x).drop_first() =~= Seq::<SpecPair>::empty());
        assert(pairs_encoding(s.push(x)) == pair_encoding(x) + pairs_encoding(
            Seq::<SpecPair>::empty(),
        ));
        assert(pairs_encoding(Seq::<SpecPair>::empty()) =~= Seq::<u8>::empty());
        assert(pairs_encoding(s) =~= Seq::<u8>::empty());
        assert(pair_encoding(x) + Seq::<u8>::empty() =~= pair_encoding(x));
        assert(Seq::<u8>::empty() + pair_encoding(x) =~= pair_encoding(x));
    } else {
        assert(s.push(x)[0] == s[0]);
        assert(s.push(x).drop_first() =~= s.drop_first().push(x));
        lemma_pairs_encoding_push(s.drop_first(), x);
        assert(pairs_encoding(s.push(x)) == pair_encoding(s[0]) + pairs_encoding(
            s.drop_first().push(x),
        ));
        assert(pair_encoding(s[0]) + (pairs_encoding(s.drop_first()) + pair_encoding(x)) =~= (
        pair_encoding(s[0]) + pairs_encoding(s.drop_first())) + pair_encoding(x));
    }
}

/// Appends the encoding of a pair sequence.
fn push_pairs(buf: &mut Vec<u8>, pairs: &Vec<BytePair>)
    requires
        forall|i: int| 0 <= i < pairs@.len() ==> pair_fits(#[trigger] pairs_view(pairs@)[i]),
    ensures
        final(buf)@ == old(buf)@ + pairs_encoding(pairs_view(pairs@)),
{
    let ghost base = buf@;
    let ghost ps = pairs_view(pairs@);
    let mut i: usize = 0;
    proof {
        assert(ps.take(0) =~= Seq::<SpecPair>::empty());
    }
    while i < pairs.len()
        invariant
            0 <= i <= pairs@.len(),
            ps == pairs_view(pairs@),
            forall|j: int| 0 <= j < pairs@.len() ==> pair_fits(#[trigger] ps[j]),
            buf@ == base + pairs_encoding(ps.take(i as int)),
        decreases pairs@.len() - i,
    {
        proof {
            assert(ps[i as int] == pair_view(pairs@[i as int]));
        }
        push_len_prefixed(buf, pairs[i].0.as_slice());
        push_len_prefixed(buf, pairs[i].1.as_slice());
        proof {
            lemma_pairs_encoding_push(ps.take(i as int), ps[i as int]);
            assert(ps.take(i + 1) =~= ps.take(i as int).push(ps[i as int]));
            assert(buf@ =~= base + pairs_encoding(ps.take(i + 1)));
        }
        i = i + 1;
    }
    proof {
        assert(ps.take(pairs@.len() as int) =~= ps);
    }
}

/// Converts string pairs to their UTF-8 byte pairs.
pub(crate) fn to_byte_pairs(v: &Vec<(String, String)>) -> (r: Vec<BytePair>)
    ensures
        pairs_view(r@) =~= str_pairs_bytes(v@),
{
    let mut r: Vec<BytePair> = Vec::new();
    let mut i: usize = 0;
    while i < v.len()
        invariant
            0 <= i <= v@.len(),
            pairs_view(r@) =~= str_pairs_bytes(v@.take(i as int)),
        decreases v@.len() - i,
    {
        let k = v[i].0.as_str().as_bytes_vec();
        let val = v[i].1.as_str().as_bytes_vec();
        let ghost prev = r@;
        r.push((k, val));
        proof {
            let t1 = v@.take(i + 1);
            assert(pairs_view(prev).len() == str_pairs_bytes(v@.take(i as int)).len());
            assert(prev.len() == i);
            assert(r@ == prev.push((k, val)));
            assert(pairs_view(r@).len() == i + 1);
            assert(str_pairs_bytes(t1).len() == i + 1);
            assert forall|j: int| 0 <= j < i + 1 implies pairs_view(r@)[j] == str_pairs_bytes(
                t1,
            )[j] by {
                if j < i as int {
                    assert(r@[j] == prev[j]);
                    assert(t1[j] == v@.take(i as int)[j]);
                    assert(pairs_view(prev)[j] == str_pairs_bytes(v@.take(i as int))[j]);
                } else {
                    assert(r@[j] == (k, val));
                    assert(t1[j] == v@[i as int]);
                }
            }
            assert(pairs_view(r@) =~= str_pairs_bytes(t1));
        }
        i = i + 1;
    }
    proof {
        assert(v@.take(v@.len() as int) =~= v@);
    }
    r
}

/// Canonicalizes each header pair: lowercased name, trimmed value.
fn norm_pairs(v: &Vec<BytePair>) -> (r: Vec<BytePair>)
    ensures
        pairs_view(r@) =~= pairs_view(v@).map_values(|p: SpecPair| norm_header(p)),
{
    let mut r: Vec<BytePair> = Vec::new();
    let mut i: usize = 0;
    while i < v.len()
        invariant
            0 <= i <= v@.len(),
            pairs_view(r@) =~= pairs_view(v@.take(i as int)).map_values(
                |p: SpecPair| norm_header(p),
            ),
        decreases v@.len() - i,
    {
        let name = lower_bytes(v[i].0.as_slice());
        let value = trim_bytes(v[i].1.as_slice());
        let ghost prev = r@;
        r.push((name, value));
        proof {
            let t1 = v@.take(i + 1);
            let m1 = pairs_view(t1).map_values(|p: SpecPair| norm_header(p));
            let m0 = pairs_view(v@.take(i as int)).map_values(|p: SpecPair| norm_header(p));
            assert(pairs_view(prev).len() == m0.len());
            assert(prev.len() == i);
            assert(r@ == prev.push((name, value)));
            assert(pairs_view(r@).len() == i + 1);
            assert(m1.len() == i + 1);
            assert forall|j: int| 0 <= j < i + 1 implies pairs_view(r@)[j] == m1[j] by {
                if j < i as int {
                    assert(r@[j] == prev[j]);
                    assert(t1[j] == v@.take(i as int)[j]);
                    assert(pairs_view(prev)[j] == m0[j]);
                } else {
                    assert(r@[j] == (name, value));
                    assert(t1[j] == v@[i as int]);
                }
            }
            assert(pairs_view(r@) =~= m1);
        }
        i = i + 1;
    }
    proof {
        assert(v@.take(v@.len() as int) =~= v@);
    }
    r
}

/// A property of pairs carries over any reordering.
proof fn lemma_pairs_fit_of_multiset(a: Seq<SpecPair>, b: Seq<SpecPair>)
    requires
        a.to_multiset() =~= b.to_multiset(),
        forall|i: int| 0 <= i < a.len() ==> pair_fits(#[trigger] a[i]),
    ensures
        forall|i: int| 0 <= i < b.len() ==> pair_fits(#[trigger] b[i]),
{
    broadcast use vstd::seq_lib::group_to_multiset_ensures;

    assert forall|i: int| 0 <= i < b.len() implies pair_fits(#[trigger] b[i]) by {
        assert(b.contains(b[i]));
        assert(b.to_multiset().count(b[i]) > 0);
        assert(a.to_multiset().count(b[i]) > 0);
        assert(a.contains(b[i]));
        let j = a.lemma_contains_to_index(b[i]);
    }
}

/// Computes the SHA-256 fingerprint of a request, chained to the hash of its
/// predecessor.
pub fn fingerprint_request(request: &Request, prev_hash: [u8; 32]) -> (r: [u8; 32])
    requires
        request_fits(*request),
    ensures
        r@ == spec_fingerprint(*request, prev_hash@),
{
    let mut buf: Vec<u8> = Vec::new();

    // method, ASCII-uppercased
    let mb = upper_bytes(request.method.as_str().as_bytes());
    push_len_prefixed(&mut buf, mb.as_slice());

    // path, normalized
    let trimmed = trim_bytes(request.path.as_str().as_bytes());
    proof {
        crate::byteseq::lemma_trim_len(request.path_bytes());
    }
    let normed: Vec<u8> = if trimmed.len() == 0 || *vstd::slice::slice_index_get(
        trimmed.as_slice(),
        0,
    ) != 47 {
        let mut n: Vec<u8> = Vec::new();
        n.push(47);
        let mut t = trimmed;
        n.append(&mut t);
        n
    } else {
        trimmed
    };
    proof {
        assert(normed@ =~= norm_path_bytes(request.path_bytes()));
    }
    push_len_prefixed(&mut buf, normed.as_slice());

    // query pairs, sorted by key
    let q = to_byte_pairs(&request.query);
    let qs = sort_pairs(q);
    proof {
        crate::pairsort::lemma_sort_by_key_ensures(request.query_pairs());
        lemma_pairs_fit_of_multiset(request.query_pairs(), pairs_view(qs@));
    }
    push_pairs(&mut buf, &qs);

    // header pairs, canonicalized then sorted by name
    let h = to_byte_pairs(&request.headers);
    let hn = norm_pairs(&h);
    let hs = sort_pairs(hn);
    proof {
        let normed_pairs = request.normalized_headers();
        assert forall|i: int| 0 <= i < normed_pairs.len() implies pair_fits(
            #[trigger] normed_pairs[i],
        ) by {
            assert(pair_fits(request.header_pairs()[i]));
            crate::byteseq::lemma_trim_len(request.header_pairs()[i].1);
        }
        crate::pairsort::lemma_sort_by_key_ensures(normed_pairs);
        lemma_pairs_fit_of_multiset(normed_pairs, pairs_view(hs@));
    }
    push_pairs(&mut buf, &hs);

    // body
    push_len_prefixed(&mut buf, request.body.as_slice());

    // predecessor hash, raw
    buf.extend_from_slice(prev_hash.as_slice());

    proof {
        assert(mb@ == spec_upper(request.method_bytes()));
        assert(pairs_view(qs@) == sort_by_key(request.query_pairs()));
        assert(pairs_view(hs@) == sort_by_key(
            request.header_pairs().map_values(|p: SpecPair| norm_header(p)),
        ));
        assert(buf@ =~= canonical_encoding(
            request.method_bytes(),
            request.path_bytes(),
            request.query_pairs(),
            request.header_pairs(),
            request.body@,
            prev_hash@,
        ));
    }
    sha256(buf.as_slice())
}

/// Normalizes a URL path: trims ASCII whitespace at both ends and ensures a
/// leading slash.
pub fn normalize_path(path: &str) -> (r: String)
    ensures
        encode_utf8(r@) == norm_path_bytes(encode_utf8(path@)),
{
    let trimmed = trim_bytes(path.as_bytes());
    proof {
        vstd::utf8::encode_utf8_valid_utf8(path@);
        crate::strutil::lemma_trim_valid_utf8(encode_utf8(path@));
    }
    let normed: Vec<u8> = if trimmed.len() == 0 || *vstd::slice::slice_index_get(
        trimmed.as_slice(),
        0,
    ) != 47 {
        proof {
            crate::strutil::lemma_ascii_prepend_valid_utf8(47u8, trimmed@);
        }
        let mut n: Vec<u8> = Vec::new();
        n.push(47);
        let mut t = trimmed;
        n.append(&mut t);
        n
    } else {
        trimmed
    };
    proof {
        assert(normed@ =~= norm_path_bytes(encode_utf8(path@)));
        assert(vstd::utf8::valid_utf8(normed@));
    }
    let r = crate::strutil::bytes_to_string(normed.as_slice());
    proof {
        vstd::utf8::decode_utf8_encode_utf8(normed@);
    }
    r
}

/// Tracks the chain of request hashes within one session.
#[derive(Debug, Clone, Copy)]
pub struct RequestChain {
    current_hash: [u8; 32],
}

impl RequestChain {
    /// The most recently computed request hash, or the chain head.
    pub closed spec fn spec_current(self) -> Seq<u8> {
        self.current_hash@
    }

    /// A fresh chain, seeded with the chain head.
    pub fn new() -> (r: Self)
        ensures
            r.spec_current() == CHAIN_HEAD_HASH@,
    {
        RequestChain { current_hash: CHAIN_HEAD_HASH }
    }

    /// A chain resuming from a stored hash.
    pub fn from_hash(hash: [u8; 32]) -> (r: Self)
        ensures
            r.spec_current() == hash@,
    {
        RequestChain { current_hash: hash }
    }

    /// Fingerprints a request against the current chain state and advances
    /// the chain to the new hash.
    pub fn process_request(&mut self, request: &Request) -> (h: [u8; 32])
        requires
            request_fits(*request),
        ensures
            h@ == spec_fingerprint(*request, old(self).spec_current()),
            final(self).spec_current() == h@,
    {
        let hash = fingerprint_request(request, self.current_hash);
        self.current_hash = hash;
        hash
    }

    /// The hash the next request will be chained to.
    pub fn previous_hash(&self) -> (h: [u8; 32])
        ensures
            h@ == self.spec_current(),
    {
        self.current_hash
    }

    /// The current chain state, for serialization.
    pub fn current_hash(&self) -> (h: [u8; 32])
        ensures
            h@ == self.spec_current(),
    {
        self.current_hash
    }

    /// Resets the chain to the chain head.
    pub fn reset(&mut self)
        ensures
            final(self).spec_current() == CHAIN_HEAD_HASH@,
    {
        self.current_hash = CHAIN_HEAD_HASH;
    }
}

impl Default for RequestChain {
    /// A fresh chain, seeded with the chain head.
    fn default() -> (r: Self)
        ensures
            r.spec_current() == CHAIN_HEAD_HASH@,
    {
        RequestChain::new()
    }
}

/// The fingerprint depends only on the values of the request fields and the
/// predecessor hash: requests with equal field views hash identically.
pub proof fn lemma_fingerprint_deterministic(r1: Request, r2: Request, p1: Seq<u8>, p2: Seq<u8>)
    requires
        r1.method@ == r2.method@,
        r1.path@ == r2.path@,
        r1.query@.map_values(|p: (String, String)| (p.0@, p.1@)) == r2.query@.map_values(
            |p: (String, String)| (p.0@, p.1@),
        ),
        r1.headers@.map_values(|p: (String, String)| (p.0@, p.1@)) == r2.headers@.map_values(
            |p: (String, String)| (p.0@, p.1@),
        ),
        r1.body@ == r2.body@,
        p1 == p2,
    ensures
        spec_fingerprint(r1, p1) == spec_fingerprint(r2, p2),
{
    let v1 = r1.query@.map_values(|p: (String, String)| (p.0@, p.1@));
    let v2 = r2.query@.map_values(|p: (String, String)| (p.0@, p.1@));
    assert(r1.query_pairs() =~= v1.map_values(
        |p: (Seq<char>, Seq<char>)| (encode_utf8(p.0), encode_utf8(p.1)),
    ));
    assert(r2.query_pairs() =~= v2.map_values(
        |p: (Seq<char>, Seq<char>)| (encode_utf8(p.0), encode_utf8(p.1)),
    ));
    let h1 = r1.headers@.map_values(|p: (String, String)| (p.0@, p.1@));
    let h2 = r2.headers@.map_values(|p: (String, String)| (p.0@, p.1@));
    assert(r1.header_pairs() =~= h1.map_values(
        |p: (Seq<char>, Seq<char>)| (encode_utf8(p.0), encode_utf8(p.1)),
    ));
    assert(r2.header_pairs() =~= h2.map_values(
        |p: (Seq<char>, Seq<char>)| (encode_utf8(p.0), encode_utf8(p.1)),
    ));
}

/// Reordering the query pairs and the header pairs, and changing the ASCII
/// case of header names, leaves the fingerprint unchanged, provided no two
/// query pairs share a key and no two headers share a lowercased name. (With
/// repeated keys the stable sort preserves the original relative order, so
/// two different orders of equal-key pairs may hash differently.)
pub proof fn lemma_fingerprint_order_insensitive(r1: Request, r2: Request, p: Seq<u8>)
    requires
        r1.method_bytes() == r2.method_bytes(),
        r1.path_bytes() == r2.path_bytes(),
        r1.body@ == r2.body@,
        r1.query_pairs().to_multiset() =~= r2.query_pairs().to_multiset(),
        distinct_keys(r1.query_pairs()),
        distinct_keys(r2.query_pairs()),
        r1.normalized_headers().to_multiset() =~= r2.normalized_headers().to_multiset(),
        distinct_keys(r1.normalized_headers()),
        distinct_keys(r2.normalized_headers()),
    ensures
        spec_fingerprint(r1, p) == spec_fingerprint(r2, p),
{
    lemma_sort_of_permutation(r1.query_pairs(), r2.query_pairs());
    lemma_sort_of_permutation(r1.normalized_headers(), r2.normalized_headers());
    assert(r1.header_pairs().map_values(|q: SpecPair| norm_header(q))
        == r1.normalized_headers());
    assert(r2.header_pairs().map_values(|q: SpecPair| norm_header(q))
        == r2.normalized_headers());
}

/// Two methods that differ only in ASCII case produce the same fingerprint.
pub proof fn lemma_fingerprint_method_case_insensitive(r1: Request, r2: Request, p: Seq<u8>)
    requires
        r1.method_bytes().len() == r2.method_bytes().len(),
        forall|i: int|
            0 <= i < r1.method_bytes().len() ==> crate::byteseq::upper_byte(
                #[trigger] r1.method_bytes()[i],
            ) == crate::byteseq::upper_byte(r2.method_bytes()[i]),
        r1.path_bytes() == r2.path_bytes(),
        r1.query_pairs() == r2.query_pairs(),
        r1.header_pairs() == r2.header_pairs(),
        r1.body@ == r2.body@,
    ensures
        spec_fingerprint(r1, p) == spec_fingerprint(r2, p),
{
    assert(spec_upper(r1.method_bytes()) =~= spec_upper(r2.method_bytes()));
}

} // verus!

verus! {

/// The chain head as the canonicalization defines it: the fingerprint of
/// the empty request — empty method, path `/` after normalization, no
/// query, no headers, no body — with a predecessor of 32 zero bytes.
pub open spec fn spec_chain_head() -> Seq<u8> {
    sha256_of(
        canonical_encoding(
            Seq::<u8>::empty(),
            Seq::<u8>::empty(),
            Seq::<SpecPair>::empty(),
            Seq::<SpecPair>::empty(),
            Seq::<u8>::empty(),
            Seq::new(32, |i: int| 0u8),
        ),
    )
}

/// Recomputes the fingerprint of the empty request and compares it with the
/// documented chain-head constant. The constant is a fixed, documented seed:
/// whether this canonicalization reproduces it is reported, not assumed, so
/// a startup check can log the outcome.
pub fn verify_chain_head() -> (r: bool)
    ensures
        r == (spec_chain_head() == CHAIN_HEAD_HASH@),
{
    let request = Request {
        method: String::new(),
        path: String::new(),
        query: Vec::new(),
        headers: Vec::new(),
        body: Vec::new(),
    };
    let zero: [u8; 32] = [0; 32];
    proof {
        assert(encode_utf8(request.method@) =~= Seq::<u8>::empty());
        assert(encode_utf8(request.path@) =~= Seq::<u8>::empty());
        assert(request.query_pairs() =~= Seq::<SpecPair>::empty());
        assert(request.header_pairs() =~= Seq::<SpecPair>::empty());
        assert(zero@ =~= Seq::new(32, |i: int| 0u8));
    }
    let h = fingerprint_request(&request, zero);
    crate::byteseq::bytes32_eq(&h, &CHAIN_HEAD_HASH)
}

} // verus!
