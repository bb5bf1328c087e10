//! Recording writer: accumulates interactions and serializes the finished
//! recording to its exact byte image — header, fixed index, data section —
//! with the header CRC computed over everything but the CRC field itself.

use vstd::prelude::*;
use vstd::slice::slice_subrange;
use crate::errors::OuliError;
use crate::hashes::{crc32, crc32_of};
use crate::storage::format::{
    FileHeader, InteractionEntry, FILE_MAGIC, FILE_VERSION, CHAIN_DEPTH_MAX, DATA_OFFSET,
    HEADER_SIZE, INDEX_ENTRY_SIZE, spec_header_bytes, spec_index_bytes,
    spec_image, zero_bytes, crc_region, header_to_bytes, entry_to_bytes,
    lemma_header_bytes_len, lemma_index_bytes_len, lemma_index_bytes_push,
    lemma_crc_region_ignores_crc,
};

verus! {

/// One interaction entry is internally consistent with a data section of
/// `dlen` bytes: its blobs sit back to back inside the data section.
pub open spec fn entry_ranges_ok(e: InteractionEntry, dlen: int) -> bool {
    &&& DATA_OFFSET <= e.request_offset
    &&& e.response_offset == e.request_offset + e.request_size
    &&& e.response_offset + e.response_size <= DATA_OFFSET + dlen
}

/// Structural invariant of a recording in progress.
pub open spec fn writer_wf(h: FileHeader, entries: Seq<InteractionEntry>, data: Seq<u8>) -> bool {
    &&& h.magic@ == FILE_MAGIC@
    &&& h.version == FILE_VERSION
    &&& h.data_offset == DATA_OFFSET
    &&& entries.len() == h.interaction_count
    &&& h.interaction_count <= CHAIN_DEPTH_MAX
    &&& data.len() == h.file_size
    &&& forall|i: int|
        0 <= i < entries.len() ==> entry_ranges_ok(#[trigger] entries[i], data.len() as int)
}

/// The header that `finalize` writes: final chain state stored, CRC computed
/// over the header bytes with the CRC field excluded.
pub open spec fn spec_finalized_header(h: FileHeader, fcs: [u8; 32]) -> FileHeader {
    let h1 = FileHeader { final_chain_state: fcs, header_crc: 0, ..h };
    FileHeader { header_crc: crc32_of(crc_region(spec_header_bytes(h1))), ..h1 }
}

/// Writer for recording images.
pub struct RecordingWriter {
    header: FileHeader,
    entries: Vec<InteractionEntry>,
    data: Vec<u8>,
}

impl RecordingWriter {
    /// The header as it would currently be written.
    pub closed spec fn spec_header(self) -> FileHeader {
        self.header
    }

    /// The index entries appended so far, in order.
    pub closed spec fn spec_entries(self) -> Seq<InteractionEntry> {
        self.entries@
    }

    /// The data section accumulated so far.
    pub closed spec fn spec_data(self) -> Seq<u8> {
        self.data@
    }

    /// Structural invariant: counters mirror the entries and data held.
    pub open spec fn wf(self) -> bool {
        writer_wf(self.spec_header(), self.spec_entries(), self.spec_data())
    }

    /// Creates a fresh recording with the given identifier and creation
    /// time.
    pub fn create(recording_id: [u8; 32], created_at: u64) -> (w: Self)
        ensures
            w.wf(),
            w.spec_entries().len() == 0,
            w.spec_data().len() == 0,
            w.spec_header().recording_id@ == recording_id@,
            w.spec_header().created_at == created_at,
            w.spec_header().interaction_count == 0,
            w.spec_header().file_size == 0,
            w.spec_header().header_crc == 0,
            w.spec_header().final_chain_state@ == zero_bytes(32),
            w.spec_header().feature_flags == 0,
            w.spec_header().compression_type == 0,
            w.spec_header().compression_level == 0,
            w.spec_header().reserved@ == zero_bytes(10),
    {
        let mut header = FileHeader::new_default();
        header.recording_id = recording_id;
        header.created_at = created_at;
        RecordingWriter { header, entries: Vec::new(), data: Vec::new() }
    }

    /// Number of interactions appended so far.
    pub fn interaction_count(&self) -> (r: u64)
        ensures
            r == self.spec_header().interaction_count,
    {
        self.header.interaction_count
    }

    /// The recording identifier stored in the header.
    pub fn recording_id(&self) -> (r: [u8; 32])
        ensures
            r@ == self.spec_header().recording_id@,
    {
        self.header.recording_id
    }

    /// Appends one interaction: a new index entry plus the two blobs written
    /// back to back at the end of the data section. Fails when the index is
    /// full or a blob cannot be represented.
    pub fn append_interaction(
        &mut self,
        request_hash: [u8; 32],
        prev_request_hash: [u8; 32],
        request_data: &[u8],
        response_data: &[u8],
        timestamp: u64,
    ) -> (r: Result<(), OuliError>)
        requires
            old(self).wf(),
        ensures
            final(self).wf(),
            r is Err ==> *final(self) == *old(self),
            old(self).spec_entries().len() >= CHAIN_DEPTH_MAX ==> (r matches Err(
                OuliError::Other(_),
            )),
            old(self).spec_entries().len() < CHAIN_DEPTH_MAX && request_data@.len() > 0xffff_ffff
                ==> (r matches Err(OuliError::DataTooLarge { size, limit } )
                && size == request_data@.len() && limit == 0xffff_ffff),
            old(self).spec_entries().len() < CHAIN_DEPTH_MAX && request_data@.len() <= 0xffff_ffff
                && response_data@.len() > 0xffff_ffff ==> (r matches Err(
                OuliError::DataTooLarge { size, limit } ) && size == response_data@.len()
                && limit == 0xffff_ffff),
            r is Ok <==> {
                &&& old(self).spec_entries().len() < CHAIN_DEPTH_MAX
                &&& request_data@.len() <= 0xffff_ffff
                &&& response_data@.len() <= 0xffff_ffff
                &&& DATA_OFFSET + old(self).spec_data().len() + request_data@.len()
                    + response_data@.len() <= 0xffff_ffff_ffff_ffff
            },
            r is Ok ==> {
                &&& final(self).spec_entries().len() == old(self).spec_entries().len() + 1
                &&& final(self).spec_entries().drop_last() == old(self).spec_entries()
                &&& {
                    let e = final(self).spec_entries().last();
                    &&& e.request_hash@ == request_hash@
                    &&& e.prev_request_hash@ == prev_request_hash@
                    &&& e.request_offset == DATA_OFFSET + old(self).spec_data().len()
                    &&& e.response_offset == e.request_offset + request_data@.len()
                    &&& e.timestamp == timestamp
                    &&& e.request_size == request_data@.len()
                    &&& e.response_size == response_data@.len()
                    &&& e.reserved@ == zero_bytes(32)
                }
                &&& final(self).spec_data() == old(self).spec_data() + request_data@
                    + response_data@
                &&& final(self).spec_header() == FileHeader {
                    interaction_count: (old(self).spec_header().interaction_count + 1) as u64,
                    file_size: (old(self).spec_header().file_size + request_data@.len()
                        + response_data@.len()) as u64,
                    ..old(self).spec_header()
                }
            },
    {
        if self.entries.len() >= 65536 {
            return Err(OuliError::Other("recording full: max chain depth reached".to_owned()));
        }
        let req_len = request_data.len();
        let resp_len = response_data.len();
        if req_len > 0xffff_ffff {
            return Err(OuliError::DataTooLarge { size: req_len, limit: 0xffff_ffff });
        }
        if resp_len > 0xffff_ffff {
            return Err(OuliError::DataTooLarge { size: resp_len, limit: 0xffff_ffff });
        }
        let cur = self.data.len();
        if (cur as u64) > 0xffff_ffff_ffff_ffffu64 - DATA_OFFSET - (req_len as u64) - (resp_len
            as u64) {
            return Err(OuliError::Other("recording data section full".to_owned()));
        }
        let request_offset = DATA_OFFSET + (cur as u64);
        let response_offset = request_offset + (req_len as u64);
        let entry = InteractionEntry {
            request_hash,
            prev_request_hash,
            request_offset,
            response_offset,
            timestamp,
            request_size: req_len as u32,
            response_size: resp_len as u32,
            reserved: [0; 32],
        };
        proof {
            assert(entry.reserved@ =~= zero_bytes(32));
        }
        let ghost old_entries = self.entries@;
        self.entries.push(entry);
        self.data.extend_from_slice(request_data);
        self.data.extend_from_slice(response_data);
        self.header.interaction_count = self.header.interaction_count + 1;
        self.header.file_size = self.header.file_size + (req_len as u64) + (resp_len as u64);
        proof {
            assert(self.entries@.drop_last() =~= old_entries);
            assert(self.data@ =~= old(self).spec_data() + request_data@ + response_data@);
            assert forall|i: int| 0 <= i < self.entries@.len() implies entry_ranges_ok(
                #[trigger] self.entries@[i],
                self.data@.len() as int,
            ) by {
                if i < old_entries.len() {
                    assert(entry_ranges_ok(old_entries[i], old(self).spec_data().len() as int));
                }
            }
        }
        Ok(())
    }

    /// Serializes the recording to its final byte image: the header with the
    /// final chain state and its CRC, the index with the used slots followed
    /// by zeroed slots, and the data section, truncated to its exact size.
    pub fn finalize(self, final_chain_state: [u8; 32]) -> (r: Vec<u8>)
        requires
            self.wf(),
        ensures
            r@ == spec_image(
                spec_finalized_header(self.spec_header(), final_chain_state),
                self.spec_entries(),
                self.spec_data(),
            ),
            r@.len() == DATA_OFFSET + self.spec_data().len(),
    {
        let mut h1 = self.header;
        h1.final_chain_state = final_chain_state;
        h1.header_crc = 0;
        let hb1 = header_to_bytes(&h1);
        let mut crcbuf: Vec<u8> = Vec::new();
        crcbuf.extend_from_slice(slice_subrange(hb1.as_slice(), 0, 12));
        crcbuf.extend_from_slice(slice_subrange(hb1.as_slice(), 16, 128));
        proof {
            assert(crcbuf@ =~= crc_region(spec_header_bytes(h1)));
        }
        let crc = crc32(crcbuf.as_slice());
        let mut h2 = h1;
        h2.header_crc = crc;
        proof {
            lemma_crc_region_ignores_crc(h1, h2);
            assert(h2 == spec_finalized_header(self.spec_header(), final_chain_state));
        }

        let mut img = header_to_bytes(&h2);
        let ghost hdr_bytes = spec_header_bytes(h2);
        let n = self.entries.len();
        let mut i: usize = 0;
        proof {
            lemma_header_bytes_len(h2);
            assert(self.entries@.take(0) =~= Seq::<InteractionEntry>::empty());
            assert(img@ =~= hdr_bytes + spec_index_bytes(self.entries@.take(0)));
        }
        while i < n
            invariant
                0 <= i <= n,
                n == self.entries@.len(),
                n <= 65536,
                img@ == hdr_bytes + spec_index_bytes(self.entries@.take(i as int)),
                img@.len() == 128 + 128 * i,
            decreases n - i,
        {
            let mut eb = entry_to_bytes(&self.entries[i]);
            img.append(&mut eb);
            proof {
                lemma_index_bytes_push(self.entries@.take(i as int), self.entries@[i as int]);
                assert(self.entries@.take(i + 1) =~= self.entries@.take(i as int).push(
                    self.entries@[i as int],
                ));
                lemma_index_bytes_len(self.entries@.take(i + 1));
                assert(img@ =~= hdr_bytes + spec_index_bytes(self.entries@.take(i + 1)));
            }
            i = i + 1;
        }
        proof {
            assert(self.entries@.take(n as int) =~= self.entries@);
        }

        // zero padding for the unused index slots
        let ghost before_pad = img@;
        let target: usize = HEADER_SIZE + INDEX_ENTRY_SIZE * 65536;
        img.resize(target, 0u8);
        proof {
            assert(before_pad.len() == 128 + 128 * n);
            assert(target == 128 + 65536 * 128);
            assert(img@.len() == target);
            assert(img@ =~= before_pad + zero_bytes(((65536 - n) * 128) as nat));
        }

        // data section
        img.extend_from_slice(self.data.as_slice());
        proof {
            assert(img@ =~= spec_image(h2, self.entries@, self.data@));
        }
        img
    }
}

} // verus!
