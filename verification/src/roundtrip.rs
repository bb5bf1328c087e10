//! The record-to-replay round trip: what the recording engine appends can
//! be read back, parsed, and served again unchanged. The lemma here closes
//! the gap between the writer's state and the slot-level specifications
//! that the reader and the replay cache contracts speak of.

use vstd::prelude::*;
use crate::recording::engine::{Response, response_serializable, spec_serialize_response};
use crate::replay::cache::{
    spec_parse_response, slot_resp_off, slot_resp_size, slot_resp_blob, slot_loaded,
    lemma_response_roundtrip,
};
use crate::storage::format::{DATA_OFFSET, spec_image, spec_entry_bytes, lemma_entry_roundtrip};
use crate::storage::reader::{
    image_valid, entry_slice, slot_request_hash, slot_prev_hash, lemma_finalized_image_valid,
};
use crate::recording::session::{entries_linked, chain_at_tip};
use crate::fingerprint::CHAIN_HEAD_HASH;
use crate::storage::writer::{RecordingWriter, spec_finalized_header, entry_ranges_ok};

verus! {

/// In the finalized image of a writer, slot `i` exposes exactly the fields
/// and the response blob of the entry appended as interaction `i`.
pub proof fn lemma_slot_of_finalized_image(w: RecordingWriter, fcs: [u8; 32], i: int)
    requires
        w.wf(),
        0 <= i < w.spec_entries().len(),
    ensures
        ({
            let b = spec_image(
                spec_finalized_header(w.spec_header(), fcs),
                w.spec_entries(),
                w.spec_data(),
            );
            let e = w.spec_entries()[i];
            &&& image_valid(b)
            &&& crate::storage::format::hdr_interaction_count(b) == w.spec_entries().len()
            &&& slot_request_hash(b, i) == e.request_hash@
            &&& slot_resp_off(b, i) == e.response_offset
            &&& slot_resp_size(b, i) == e.response_size
            &&& slot_resp_blob(b, i) == w.spec_data().subrange(
                e.response_offset - DATA_OFFSET,
                e.response_offset - DATA_OFFSET + e.response_size,
            )
        }),
{
    let b = spec_image(
        spec_finalized_header(w.spec_header(), fcs),
        w.spec_entries(),
        w.spec_data(),
    );
    let e = w.spec_entries()[i];
    lemma_finalized_image_valid(w, fcs);
    crate::storage::reader::lemma_image_layout(
        spec_finalized_header(w.spec_header(), fcs),
        w.spec_entries(),
        w.spec_data(),
    );
    lemma_entry_roundtrip(e);
    assert(entry_slice(b, i) == spec_entry_bytes(e));
    assert(slot_request_hash(b, i) == e.request_hash@);
    assert(slot_resp_off(b, i) == e.response_offset);
    assert(slot_resp_size(b, i) == e.response_size);
    assert(entry_ranges_ok(e, w.spec_data().len() as int));
    let dlen = w.spec_data().len() as int;
    assert(b.subrange(DATA_OFFSET as int, DATA_OFFSET + dlen) == w.spec_data());
    assert(slot_resp_blob(b, i) =~= w.spec_data().subrange(
        e.response_offset - DATA_OFFSET,
        e.response_offset - DATA_OFFSET + e.response_size,
    )) by {
        assert forall|k: int|
            0 <= k < e.response_size implies #[trigger] b[e.response_offset + k]
            == w.spec_data()[(e.response_offset - DATA_OFFSET) + k] by {
            let x = (e.response_offset - DATA_OFFSET) + k;
            assert(b.subrange(DATA_OFFSET as int, DATA_OFFSET + dlen)[x] == b[DATA_OFFSET + x]);
            assert(b.subrange(DATA_OFFSET as int, DATA_OFFSET + dlen)[x] == w.spec_data()[x]);
            assert(DATA_OFFSET + x == e.response_offset + k);
        }
    }
}

/// Round trip: when interaction `i` of a recording holds the serialization
/// of `resp`, its slot in the finalized image parses back to exactly the
/// status, headers and body of `resp`. Together with the replay cache
/// contract (a slot whose hash is not repeated later provides the cached
/// value for its hash) and the replay engine contract (a request hashing to
/// that fingerprint is served that value), each replay returns the
/// byte-identical recorded response. A recording in which two interactions
/// share a request hash is served last-write-wins instead.
pub proof fn lemma_recorded_response_recoverable(
    w: RecordingWriter,
    fcs: [u8; 32],
    i: int,
    resp: Response,
)
    requires
        w.wf(),
        0 <= i < w.spec_entries().len(),
        response_serializable(resp),
        ({
            let e = w.spec_entries()[i];
            w.spec_data().subrange(
                e.response_offset - DATA_OFFSET,
                e.response_offset - DATA_OFFSET + e.response_size,
            ) == spec_serialize_response(resp)
        }),
    ensures
        ({
            let b = spec_image(
                spec_finalized_header(w.spec_header(), fcs),
                w.spec_entries(),
                w.spec_data(),
            );
            &&& image_valid(b)
            &&& slot_loaded(b, i)
            &&& slot_request_hash(b, i) == w.spec_entries()[i].request_hash@
            &&& spec_parse_response(slot_resp_blob(b, i)) == Some(
                (resp.status, resp.header_pairs(), resp.body@),
            )
        }),
{
    let b = spec_image(
        spec_finalized_header(w.spec_header(), fcs),
        w.spec_entries(),
        w.spec_data(),
    );
    let e = w.spec_entries()[i];
    lemma_slot_of_finalized_image(w, fcs, i);
    crate::storage::reader::lemma_image_layout(
        spec_finalized_header(w.spec_header(), fcs),
        w.spec_entries(),
        w.spec_data(),
    );
    lemma_response_roundtrip(resp);
    assert(slot_resp_blob(b, i) == spec_serialize_response(resp));
    assert(entry_ranges_ok(e, w.spec_data().len() as int));
    assert(b.len() == DATA_OFFSET + w.spec_data().len());
    assert(slot_resp_off(b, i) + slot_resp_size(b, i) <= b.len());
}


/// Chain linkage survives finalization: in the image of a writer whose
/// entries form an unbroken chain (as every session's writer does), slot 0
/// is chained to the chain head and each later slot to the request hash of
/// its predecessor; the stored final chain state is the chain's tip.
pub proof fn lemma_finalized_chain_linked(w: RecordingWriter, fcs: [u8; 32], tip: Seq<u8>)
    requires
        w.wf(),
        entries_linked(w.spec_entries()),
        chain_at_tip(w.spec_entries(), tip),
        fcs@ == tip,
    ensures
        ({
            let b = spec_image(
                spec_finalized_header(w.spec_header(), fcs),
                w.spec_entries(),
                w.spec_data(),
            );
            &&& image_valid(b)
            &&& (w.spec_entries().len() > 0 ==> slot_prev_hash(b, 0) == CHAIN_HEAD_HASH@)
            &&& forall|i: int|
                1 <= i < w.spec_entries().len() ==> slot_prev_hash(b, i) == slot_request_hash(
                    b,
                    i - 1,
                )
            &&& (w.spec_entries().len() > 0 ==> b.subrange(80, 112) == w.spec_entries().last().request_hash@)
        }),
{
    let h2 = spec_finalized_header(w.spec_header(), fcs);
    let b = spec_image(h2, w.spec_entries(), w.spec_data());
    lemma_finalized_image_valid(w, fcs);
    crate::storage::reader::lemma_image_layout(h2, w.spec_entries(), w.spec_data());
    assert forall|i: int| 0 <= i < w.spec_entries().len() implies slot_prev_hash(b, i)
        == w.spec_entries()[i].prev_request_hash@ && slot_request_hash(b, i)
        == w.spec_entries()[i].request_hash@ by {
        lemma_entry_roundtrip(w.spec_entries()[i]);
        assert(entry_slice(b, i) == spec_entry_bytes(w.spec_entries()[i]));
    }
    if w.spec_entries().len() > 0 {
        // the stored final chain state is the tip of the chain
        crate::storage::format::lemma_header_roundtrip(h2);
        crate::storage::format::lemma_header_bytes_len(h2);
        assert(b.subrange(0, 128) == crate::storage::format::spec_header_bytes(h2));
        assert(crate::storage::format::spec_header_bytes(h2).subrange(0, 128)
            =~= crate::storage::format::spec_header_bytes(h2));
        crate::storage::reader::lemma_hdr_prefix(b, crate::storage::format::spec_header_bytes(h2));
        assert(b.subrange(80, 112) == crate::storage::format::spec_header_bytes(h2).subrange(
            80,
            112,
        ));
        assert(h2.final_chain_state@ == crate::storage::format::hdr_final_chain_state(
            crate::storage::format::spec_header_bytes(h2),
        ));
        assert(w.spec_entries().last() == w.spec_entries()[w.spec_entries().len() - 1]);
    }
}

} // verus!
