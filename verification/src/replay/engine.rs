//! Replay engine: fingerprints an incoming request against the chain state
//! supplied by the caller and serves the recorded response from the cache.

use vstd::prelude::*;
use crate::errors::OuliError;
use crate::fingerprint::{Request, request_fits, spec_fingerprint, fingerprint_request};
use crate::replay::WarmingStrategy;
use crate::replay::cache::{ReplayCache, CachedResponse, resp_model};

verus! {

/// Cache statistics snapshot.
#[derive(Debug, Clone, Copy, PartialEq, Eq, Structural)]
pub struct CacheStats {
    /// Lookup hits.
    pub hits: usize,
    /// Lookup misses.
    pub misses: usize,
    /// Number of cached responses.
    pub size: usize,
}

/// Replay engine over a fingerprint-keyed response cache.
pub struct ReplayEngine {
    cache: ReplayCache,
}

impl ReplayEngine {
    /// The underlying cache.
    pub closed spec fn spec_cache(self) -> ReplayCache {
        self.cache
    }

    /// Engine invariant.
    pub open spec fn wf(self) -> bool {
        self.spec_cache().wf()
    }

    /// A fresh engine with an empty cache.
    pub fn new(warming_strategy: WarmingStrategy) -> (r: Self)
        ensures
            r.wf(),
            r.spec_cache().spec_entries().len() == 0,
            r.spec_cache().spec_hits() == 0,
            r.spec_cache().spec_misses() == 0,
            r.spec_cache().spec_strategy() == warming_strategy,
    {
        ReplayEngine { cache: ReplayCache::new(warming_strategy) }
    }

    /// Warms the cache from the given recordings, according to the warming
    /// strategy.
    pub fn warm(&mut self, available: &Vec<(String, Vec<u8>)>) -> (r: Result<(), OuliError>)
        requires
            old(self).wf(),
        ensures
            final(self).wf(),
            r is Ok,
            final(self).spec_cache().spec_hits() == old(self).spec_cache().spec_hits(),
            final(self).spec_cache().spec_misses() == old(self).spec_cache().spec_misses(),
            final(self).spec_cache().spec_strategy() == old(self).spec_cache().spec_strategy(),
            old(self).spec_cache().spec_strategy() == WarmingStrategy::Lazy ==> *final(self)
                == *old(self),
            old(self).spec_cache().spec_strategy() == WarmingStrategy::Eager ==> {
                &&& final(self).spec_cache().cache_keys() =~= old(self).spec_cache().cache_keys()
                    + crate::replay::cache::list_keys(available@)
                &&& crate::replay::cache::list_keys(available@).subset_of(
                    old(self).spec_cache().cache_keys(),
                ) ==> final(self).spec_cache().spec_entries().len() == old(self).spec_cache().spec_entries().len()
                &&& final(self).spec_cache().spec_entries().len()
                    == old(self).spec_cache().spec_entries().len()
                    + crate::replay::cache::list_added(
                    old(self).spec_cache().cache_keys(),
                    available@,
                )
            },
    {
        self.cache.warm(available)
    }

    /// Loads one recording image into the cache, with the cache's own
    /// contract carried through: every winning slot's parsed response is
    /// cached under its request hash, untouched keys keep their values, and
    /// the recording is registered.
    pub fn load_recording(&mut self, test_name: &str, image: &[u8]) -> (r: Result<(), OuliError>)
        requires
            old(self).wf(),
        ensures
            final(self).wf(),
            r is Ok <==> crate::storage::reader::image_valid(image@),
            r is Err ==> *final(self) == *old(self),
            final(self).spec_cache().spec_hits() == old(self).spec_cache().spec_hits(),
            final(self).spec_cache().spec_misses() == old(self).spec_cache().spec_misses(),
            final(self).spec_cache().spec_strategy() == old(self).spec_cache().spec_strategy(),
            r is Ok ==> crate::replay::cache::loaded_from(
                old(self).spec_cache(),
                final(self).spec_cache(),
                image@,
                test_name@,
            ),
    {
        self.cache.load_recording(test_name, image)
    }

    /// Fingerprints the request against the supplied predecessor hash and
    /// looks it up: a recorded response on a hit, `RecordingNotFound` with
    /// the computed hash on a miss.
    pub fn replay_request(
        &mut self,
        method: String,
        path: String,
        query: Vec<(String, String)>,
        headers: Vec<(String, String)>,
        body: Vec<u8>,
        prev_hash: [u8; 32],
    ) -> (r: Result<CachedResponse, OuliError>)
        requires
            old(self).wf(),
        ensures
            final(self).wf(),
            ({
                let req = Request { method, path, query, headers, body };
                let h = spec_fingerprint(req, prev_hash@);
                &&& (request_fits(req) ==> {
                    &&& (r is Ok <==> old(self).spec_cache().cache_has(h))
                    &&& (r matches Ok(resp) ==> resp_model(resp) == resp_model(
                        old(self).spec_cache().cache_get(h),
                    ))
                    &&& (old(self).spec_cache().cache_has(h) ==> r is Ok)
                    &&& (!old(self).spec_cache().cache_has(h) ==> (r matches Err(
                        OuliError::RecordingNotFound(hh),
                    ) && hh@ == h))
                })
                &&& (request_fits(req) && old(self).spec_cache().cache_has(h) ==> final(self).spec_cache().spec_hits() == (if old(self).spec_cache().spec_hits() < usize::MAX {
                    old(self).spec_cache().spec_hits() + 1
                } else {
                    old(self).spec_cache().spec_hits() as int
                }) && final(self).spec_cache().spec_misses() == old(self).spec_cache().spec_misses())
                &&& (request_fits(req) && !old(self).spec_cache().cache_has(h) ==> final(self).spec_cache().spec_misses() == (if old(self).spec_cache().spec_misses()
                    < usize::MAX {
                    old(self).spec_cache().spec_misses() + 1
                } else {
                    old(self).spec_cache().spec_misses() as int
                }) && final(self).spec_cache().spec_hits() == old(self).spec_cache().spec_hits())
                &&& (!request_fits(req) ==> (r matches Err(OuliError::DataTooLarge { .. }))
                    && *final(self) == *old(self))
            }),
            final(self).spec_cache().spec_entries() == old(self).spec_cache().spec_entries(),
            final(self).spec_cache().spec_recordings() == old(self).spec_cache().spec_recordings(),
            final(self).spec_cache().spec_strategy() == old(self).spec_cache().spec_strategy(),
    {
        let request = Request { method, path, query, headers, body };
        // a request too large for its 32-bit length prefixes cannot have
        // been recorded
        if !fits_for_fingerprint(&request) {
            return Err(OuliError::DataTooLarge { size: usize::MAX, limit: 0xffff_ffff });
        }
        let request_hash = fingerprint_request(&request, prev_hash);
        match self.cache.lookup(request_hash) {
            Some(resp) => Ok(resp),
            None => {
                proof {
                    assert(request_hash@ == spec_fingerprint(request, prev_hash@));
                }
                Err(OuliError::RecordingNotFound(request_hash))
            },
        }
    }

    /// Cache statistics.
    pub fn cache_stats(&self) -> (r: CacheStats)
        ensures
            r.hits == self.spec_cache().spec_hits(),
            r.misses == self.spec_cache().spec_misses(),
            r.size == self.spec_cache().spec_entries().len(),
    {
        CacheStats {
            hits: self.cache.hit_count(),
            misses: self.cache.miss_count(),
            size: self.cache.size(),
        }
    }

    /// Empties the cache and resets the counters.
    pub fn clear_cache(&mut self)
        ensures
            final(self).wf(),
            final(self).spec_cache().spec_entries().len() == 0,
            final(self).spec_cache().spec_hits() == 0,
            final(self).spec_cache().spec_misses() == 0,
            final(self).spec_cache().spec_strategy() == old(self).spec_cache().spec_strategy(),
    {
        self.cache.clear()
    }
}

/// Checks the 32-bit length-prefix limits of the canonical encoding.
pub(crate) fn fits_for_fingerprint(r: &Request) -> (b: bool)
    ensures
        b == request_fits(*r),
{
    if r.method.as_str().as_bytes().len() > 0xffff_ffff {
        return false;
    }
    if r.path.as_str().as_bytes().len() >= 0xffff_ffff {
        return false;
    }
    if r.body.len() > 0xffff_ffff {
        return false;
    }
    let mut i: usize = 0;
    while i < r.query.len()
        invariant
            0 <= i <= r.query@.len(),
            forall|j: int|
                0 <= j < i ==> crate::fingerprint::pair_fits(
                    #[trigger] r.query_pairs()[j],
                ),
        decreases r.query@.len() - i,
    {
        if r.query[i].0.as_str().as_bytes().len() > 0xffff_ffff || r.query[
            i
        ].1.as_str().as_bytes().len() > 0xffff_ffff {
            proof {
                assert(!crate::fingerprint::pair_fits(r.query_pairs()[i as int]));
            }
            return false;
        }
        i = i + 1;
    }
    let mut i: usize = 0;
    while i < r.headers.len()
        invariant
            0 <= i <= r.headers@.len(),
            forall|j: int|
                0 <= j < i ==> crate::fingerprint::pair_fits(
                    #[trigger] r.header_pairs()[j],
                ),
        decreases r.headers@.len() - i,
    {
        if r.headers[i].0.as_str().as_bytes().len() > 0xffff_ffff || r.headers[
            i
        ].1.as_str().as_bytes().len() > 0xffff_ffff {
            proof {
                assert(!crate::fingerprint::pair_fits(r.header_pairs()[i as int]));
            }
            return false;
        }
        i = i + 1;
    }
    true
}

} // verus!
