//! Recording reader: validates a recording image (magic, version, size,
//! header CRC) and serves lookups and zero-copy-style reads out of it. The
//! lemmas at the end tie the reader to the writer: a finalized image opens
//! successfully and yields back exactly what was appended, and any mutation
//! of the stored CRC field makes `open` fail with a corruption error.

use vstd::prelude::*;
use vstd::slice::{slice_subrange, slice_to_vec};
use vstd::bytes::{spec_u32_from_le_bytes, lemma_auto_spec_u32_to_from_le_bytes};
use crate::errors::OuliError;
use crate::byteseq::bytes32_eq;
use crate::hashes::{crc32, crc32_of};
use crate::storage::format::{
    FileHeader, InteractionEntry, FILE_MAGIC, FILE_VERSION, CHAIN_DEPTH_MAX, DATA_OFFSET,
    hdr_magic, hdr_version, hdr_crc, hdr_interaction_count, crc_region, header_matches,
    entry_matches, header_from_bytes, entry_from_bytes, validate_header, spec_image,
    spec_header_bytes, spec_entry_bytes, spec_index_bytes, lemma_header_bytes_len,
    lemma_header_roundtrip, lemma_index_bytes_len, lemma_index_bytes_slot,
};
use crate::storage::writer::{RecordingWriter, spec_finalized_header};

verus! {

/// The 128-byte index slot `i` of an image.
pub open spec fn entry_slice(b: Seq<u8>, i: int) -> Seq<u8> {
    b.subrange(128 + 128 * i, 128 + 128 * (i + 1))
}

/// The request hash stored in index slot `i`.
pub open spec fn slot_request_hash(b: Seq<u8>, i: int) -> Seq<u8> {
    entry_slice(b, i).subrange(0, 32)
}

/// The previous request hash stored in index slot `i`.
pub open spec fn slot_prev_hash(b: Seq<u8>, i: int) -> Seq<u8> {
    entry_slice(b, i).subrange(32, 64)
}

/// A recording image that `open` accepts: large enough for its header and
/// its used index slots, right magic and version, sane interaction count,
/// and a header CRC that matches the header bytes.
pub open spec fn image_valid(b: Seq<u8>) -> bool {
    &&& b.len() >= 128
    &&& hdr_magic(b) == FILE_MAGIC@
    &&& hdr_version(b) == FILE_VERSION
    &&& hdr_interaction_count(b) <= CHAIN_DEPTH_MAX
    &&& b.len() >= 128 + 128 * hdr_interaction_count(b)
    &&& hdr_crc(b) == crc32_of(crc_region(b))
}

/// Reader over a validated recording image.
pub struct RecordingReader {
    data: Vec<u8>,
    header: FileHeader,
}

impl RecordingReader {
    /// The full image this reader serves from.
    pub closed spec fn spec_bytes(self) -> Seq<u8> {
        self.data@
    }

    /// The parsed header.
    pub closed spec fn spec_header(self) -> FileHeader {
        self.header
    }

    /// The reader only exists over validated images.
    pub open spec fn wf(self) -> bool {
        &&& image_valid(self.spec_bytes())
        &&& header_matches(self.spec_header(), self.spec_bytes())
    }

    /// Validates and opens a recording image. Succeeds exactly on valid
    /// images; a wrong magic, version or size is an `InvalidFormat` error,
    /// and a CRC mismatch is `CorruptedData` carrying the stored and the
    /// recomputed checksum.
    pub fn open(image: Vec<u8>) -> (r: Result<RecordingReader, OuliError>)
        ensures
            r is Ok <==> image_valid(image@),
            r matches Ok(reader) ==> reader.wf() && reader.spec_bytes() == image@,
            image@.len() < 128 ==> (r matches Err(OuliError::InvalidFormat(_))),
            image@.len() >= 128 && !(hdr_magic(image@) == FILE_MAGIC@ && hdr_version(image@)
                == FILE_VERSION) ==> (r matches Err(OuliError::InvalidFormat(_))),
            image@.len() >= 128 && hdr_magic(image@) == FILE_MAGIC@ && hdr_version(image@)
                == FILE_VERSION && !(hdr_interaction_count(image@) <= CHAIN_DEPTH_MAX
                && image@.len() >= 128 + 128 * hdr_interaction_count(image@)) ==> (r matches Err(
                OuliError::InvalidFormat(_),
            )),
            image@.len() >= 128 && hdr_magic(image@) == FILE_MAGIC@ && hdr_version(image@)
                == FILE_VERSION && hdr_interaction_count(image@) <= CHAIN_DEPTH_MAX
                && image@.len() >= 128 + 128 * hdr_interaction_count(image@) && hdr_crc(image@)
                != crc32_of(crc_region(image@)) ==> r == Err::<RecordingReader, OuliError>(
                OuliError::CorruptedData {
                    offset: 0,
                    expected: hdr_crc(image@),
                    actual: crc32_of(crc_region(image@)),
                },
            ),
    {
        let ilen = image.len();
        if ilen < 128 {
            return Err(OuliError::InvalidFormat("file too small to contain header".to_owned()));
        }
        let header = header_from_bytes(image.as_slice());
        match validate_header(&header) {
            Err(e) => {
                return Err(e);
            },
            Ok(()) => {},
        }
        if header.interaction_count > CHAIN_DEPTH_MAX {
            return Err(OuliError::InvalidFormat("interaction count out of range".to_owned()));
        }
        let needed: u64 = 128 + 128 * header.interaction_count;
        if (ilen as u64) < needed {
            return Err(OuliError::InvalidFormat("file too small for its index".to_owned()));
        }
        let mut crcbuf: Vec<u8> = Vec::new();
        crcbuf.extend_from_slice(slice_subrange(image.as_slice(), 0, 12));
        crcbuf.extend_from_slice(slice_subrange(image.as_slice(), 16, 128));
        proof {
            assert(crcbuf@ =~= crc_region(image@));
        }
        let computed = crc32(crcbuf.as_slice());
        if header.header_crc != computed {
            return Err(OuliError::CorruptedData {
                offset: 0,
                expected: header.header_crc,
                actual: computed,
            });
        }
        Ok(RecordingReader { data: image, header })
    }

    /// Number of interactions in this recording.
    pub fn interaction_count(&self) -> (r: u64)
        requires
            self.wf(),
        ensures
            r == hdr_interaction_count(self.spec_bytes()),
    {
        self.header.interaction_count
    }

    /// The recording identifier.
    pub fn recording_id(&self) -> (r: [u8; 32])
        requires
            self.wf(),
        ensures
            r@ == self.spec_bytes().subrange(16, 48),
    {
        self.header.recording_id
    }

    /// The chain state stored at finalize.
    pub fn final_chain_state(&self) -> (r: [u8; 32])
        requires
            self.wf(),
        ensures
            r@ == self.spec_bytes().subrange(80, 112),
    {
        self.header.final_chain_state
    }

    /// Linear scan of the used index slots; returns the first entry whose
    /// request hash matches.
    pub fn lookup(&self, request_hash: [u8; 32]) -> (r: Option<InteractionEntry>)
        requires
            self.wf(),
        ensures
            ({
                let b = self.spec_bytes();
                let count = hdr_interaction_count(b) as int;
                &&& (r is Some <==> exists|i: int|
                    0 <= i < count && slot_request_hash(b, i) == request_hash@)
                &&& (r matches Some(e) ==> exists|i: int|
                    {
                        &&& 0 <= i < count
                        &&& #[trigger] slot_request_hash(b, i) == request_hash@
                        &&& entry_matches(e, entry_slice(b, i))
                        &&& forall|j: int| 0 <= j < i ==> slot_request_hash(b, j) != request_hash@
                    })
            }),
    {
        let count = self.header.interaction_count;
        let mut i: u64 = 0;
        let ghost b = self.spec_bytes();
        while i < count
            invariant
                self.wf(),
                b == self.spec_bytes(),
                count == hdr_interaction_count(b),
                0 <= i <= count,
                forall|j: int| 0 <= j < i ==> slot_request_hash(b, j) != request_hash@,
            decreases count - i,
        {
            let off: usize = 128 + 128 * (i as usize);
            proof {
                assert(128 + 128 * (i as int) + 128 <= b.len());
            }
            let entry = entry_from_bytes(self.data.as_slice(), off);
            proof {
                assert(entry_slice(b, i as int) =~= b.subrange(
                    off as int,
                    off + 128,
                ));
                assert(entry.request_hash@ == slot_request_hash(b, i as int));
            }
            if bytes32_eq(&entry.request_hash, &request_hash) {
                return Some(entry);
            }
            i = i + 1;
        }
        None
    }

    /// All used index entries, in slot order.
    pub fn all_entries(&self) -> (r: Vec<InteractionEntry>)
        requires
            self.wf(),
        ensures
            r@.len() == hdr_interaction_count(self.spec_bytes()),
            forall|i: int|
                0 <= i < r@.len() ==> entry_matches(
                    #[trigger] r@[i],
                    entry_slice(self.spec_bytes(), i),
                ),
    {
        let count = self.header.interaction_count;
        let ghost b = self.spec_bytes();
        let mut r: Vec<InteractionEntry> = Vec::new();
        let mut i: u64 = 0;
        while i < count
            invariant
                self.wf(),
                b == self.spec_bytes(),
                count == hdr_interaction_count(b),
                0 <= i <= count,
                r@.len() == i,
                forall|j: int| 0 <= j < i ==> entry_matches(#[trigger] r@[j], entry_slice(b, j)),
            decreases count - i,
        {
            let off: usize = 128 + 128 * (i as usize);
            proof {
                assert(128 + 128 * (i as int) + 128 <= b.len());
            }
            let entry = entry_from_bytes(self.data.as_slice(), off);
            proof {
                assert(entry_slice(b, i as int) =~= b.subrange(off as int, off + 128));
            }
            r.push(entry);
            i = i + 1;
        }
        r
    }

    /// The request blob of an entry, copied out of the image; fails when the
    /// entry points outside the image.
    pub fn read_request(&self, entry: &InteractionEntry) -> (r: Result<Vec<u8>, OuliError>)
        ensures
            r is Ok <==> entry.request_offset + entry.request_size <= self.spec_bytes().len(),
            r matches Ok(v) ==> v@ == self.spec_bytes().subrange(
                entry.request_offset as int,
                entry.request_offset + entry.request_size,
            ),
            r is Err ==> (r->Err_0 is InvalidFormat),
    {
        let dlen = self.data.len();
        if entry.request_offset > dlen as u64 || (entry.request_size as u64) > (dlen as u64)
            - entry.request_offset {
            return Err(OuliError::InvalidFormat("request data extends beyond file".to_owned()));
        }
        let start = entry.request_offset as usize;
        let end = start + entry.request_size as usize;
        Ok(slice_to_vec(slice_subrange(self.data.as_slice(), start, end)))
    }

    /// The response blob of an entry, copied out of the image; fails when
    /// the entry points outside the image.
    pub fn read_response(&self, entry: &InteractionEntry) -> (r: Result<Vec<u8>, OuliError>)
        ensures
            r is Ok <==> entry.response_offset + entry.response_size <= self.spec_bytes().len(),
            r matches Ok(v) ==> v@ == self.spec_bytes().subrange(
                entry.response_offset as int,
                entry.response_offset + entry.response_size,
            ),
            r is Err ==> (r->Err_0 is InvalidFormat),
    {
        let dlen = self.data.len();
        if entry.response_offset > dlen as u64 || (entry.response_size as u64) > (dlen as u64)
            - entry.response_offset {
            return Err(OuliError::InvalidFormat("response data extends beyond file".to_owned()));
        }
        let start = entry.response_offset as usize;
        let end = start + entry.response_size as usize;
        Ok(slice_to_vec(slice_subrange(self.data.as_slice(), start, end)))
    }
}

/// Structure of a serialized image: header bytes in front, each used index
/// slot at its place, and the data section after the fixed index.
pub proof fn lemma_image_layout(h: FileHeader, entries: Seq<InteractionEntry>, data: Seq<u8>)
    requires
        entries.len() <= 65536,
    ensures
        ({
            let b = spec_image(h, entries, data);
            &&& b.len() == DATA_OFFSET + data.len()
            &&& b.subrange(0, 128) == spec_header_bytes(h)
            &&& forall|i: int|
                0 <= i < entries.len() ==> entry_slice(b, i) == spec_entry_bytes(
                    #[trigger] entries[i],
                )
            &&& b.subrange(DATA_OFFSET as int, DATA_OFFSET + data.len()) == data
        }),
{
    let b = spec_image(h, entries, data);
    lemma_header_bytes_len(h);
    lemma_index_bytes_len(entries);
    assert(b.len() == DATA_OFFSET + data.len());
    assert(b.subrange(0, 128) =~= spec_header_bytes(h));
    assert forall|i: int| 0 <= i < entries.len() implies entry_slice(b, i) == spec_entry_bytes(
        #[trigger] entries[i],
    ) by {
        lemma_index_bytes_slot(entries, i);
        assert(entry_slice(b, i) =~= spec_index_bytes(entries).subrange(128 * i, 128 * (i + 1)));
    }
    assert(b.subrange(DATA_OFFSET as int, DATA_OFFSET + data.len()) =~= data);
}

/// The header extractors read only the first 128 bytes.
pub proof fn lemma_hdr_prefix(b1: Seq<u8>, b2: Seq<u8>)
    requires
        b1.len() >= 128,
        b2.len() >= 128,
        b1.subrange(0, 128) == b2.subrange(0, 128),
    ensures
        hdr_magic(b1) == hdr_magic(b2),
        hdr_version(b1) == hdr_version(b2),
        hdr_crc(b1) == hdr_crc(b2),
        hdr_interaction_count(b1) == hdr_interaction_count(b2),
        crc_region(b1) == crc_region(b2),
        b1.subrange(16, 48) == b2.subrange(16, 48),
        b1.subrange(56, 64) == b2.subrange(56, 64),
        b1.subrange(64, 72) == b2.subrange(64, 72),
        b1.subrange(72, 80) == b2.subrange(72, 80),
        b1.subrange(80, 112) == b2.subrange(80, 112),
        b1.subrange(112, 116) == b2.subrange(112, 116),
        b1[116] == b2[116],
        b1[117] == b2[117],
        b1.subrange(118, 128) == b2.subrange(118, 128),
        forall|h: FileHeader| header_matches(h, b1) <==> header_matches(h, b2),
{
    let p1 = b1.subrange(0, 128);
    assert(b1.subrange(0, 8) =~= p1.subrange(0, 8));
    assert(b2.subrange(0, 8) =~= p1.subrange(0, 8));
    assert(b1.subrange(8, 12) =~= p1.subrange(8, 12));
    assert(b2.subrange(8, 12) =~= p1.subrange(8, 12));
    assert(b1.subrange(12, 16) =~= p1.subrange(12, 16));
    assert(b2.subrange(12, 16) =~= p1.subrange(12, 16));
    assert(b1.subrange(16, 48) =~= p1.subrange(16, 48));
    assert(b2.subrange(16, 48) =~= p1.subrange(16, 48));
    assert(b1.subrange(48, 56) =~= p1.subrange(48, 56));
    assert(b2.subrange(48, 56) =~= p1.subrange(48, 56));
    assert(b1.subrange(56, 64) =~= p1.subrange(56, 64));
    assert(b2.subrange(56, 64) =~= p1.subrange(56, 64));
    assert(b1.subrange(64, 72) =~= p1.subrange(64, 72));
    assert(b2.subrange(64, 72) =~= p1.subrange(64, 72));
    assert(b1.subrange(72, 80) =~= p1.subrange(72, 80));
    assert(b2.subrange(72, 80) =~= p1.subrange(72, 80));
    assert(b1.subrange(80, 112) =~= p1.subrange(80, 112));
    assert(b2.subrange(80, 112) =~= p1.subrange(80, 112));
    assert(b1.subrange(112, 116) =~= p1.subrange(112, 116));
    assert(b2.subrange(112, 116) =~= p1.subrange(112, 116));
    assert(b1.subrange(118, 128) =~= p1.subrange(118, 128));
    assert(b2.subrange(118, 128) =~= p1.subrange(118, 128));
    assert(b1.subrange(0, 12) =~= p1.subrange(0, 12));
    assert(b2.subrange(0, 12) =~= p1.subrange(0, 12));
    assert(b1.subrange(16, 128) =~= p1.subrange(16, 128));
    assert(b2.subrange(16, 128) =~= p1.subrange(16, 128));
    assert(b1[116] == p1[116]);
    assert(b2[116] == p1[116]);
    assert(b1[117] == p1[117]);
    assert(b2[117] == p1[117]);
}

/// A finalized recording image passes `open`'s validation.
pub proof fn lemma_finalized_image_valid(w: RecordingWriter, fcs: [u8; 32])
    requires
        w.wf(),
    ensures
        ({
            let h2 = spec_finalized_header(w.spec_header(), fcs);
            let b = spec_image(h2, w.spec_entries(), w.spec_data());
            &&& image_valid(b)
            &&& header_matches(h2, b)
            &&& hdr_interaction_count(b) == w.spec_entries().len()
            &&& forall|i: int|
                0 <= i < w.spec_entries().len() ==> entry_slice(b, i) == spec_entry_bytes(
                    #[trigger] w.spec_entries()[i],
                )
            &&& b.subrange(DATA_OFFSET as int, DATA_OFFSET + w.spec_data().len())
                == w.spec_data()
        }),
{
    let h = w.spec_header();
    let h2 = spec_finalized_header(h, fcs);
    let b = spec_image(h2, w.spec_entries(), w.spec_data());
    lemma_image_layout(h2, w.spec_entries(), w.spec_data());
    lemma_header_roundtrip(h2);
    lemma_header_bytes_len(h2);
    assert(b.len() >= 128);
    assert(b.subrange(0, 128) == spec_header_bytes(h2));
    assert(spec_header_bytes(h2).subrange(0, 128) =~= spec_header_bytes(h2));
    lemma_hdr_prefix(b, spec_header_bytes(h2));
    let h1 = FileHeader { final_chain_state: fcs, header_crc: 0, ..h };
    crate::storage::format::lemma_crc_region_ignores_crc(h1, h2);
    assert(h2.header_crc == crc32_of(crc_region(spec_header_bytes(h1))));
    assert(header_matches(h2, spec_header_bytes(h2)));
    assert(header_matches(h2, b));
    assert(hdr_magic(b) == h2.magic@);
    assert(hdr_version(b) == h2.version);
    assert(hdr_interaction_count(b) == h2.interaction_count);
    assert(hdr_crc(b) == h2.header_crc);
    assert(crc_region(b) == crc_region(spec_header_bytes(h2)));
    assert(b.len() >= 128 + 128 * hdr_interaction_count(b));
}

/// Any change to the stored CRC field (bytes 12..16) of a valid image makes
/// it invalid, and in exactly the way `open` reports as corruption: magic,
/// version, count and the recomputed CRC are unchanged, while the stored CRC
/// no longer matches.
pub proof fn lemma_crc_byte_flip_detected(b: Seq<u8>, i: int, v: u8)
    requires
        image_valid(b),
        12 <= i < 16,
        v != b[i],
    ensures
        ({
            let b2 = b.update(i, v);
            &&& b2.len() == b.len()
            &&& hdr_magic(b2) == FILE_MAGIC@
            &&& hdr_version(b2) == FILE_VERSION
            &&& hdr_interaction_count(b2) == hdr_interaction_count(b)
            &&& crc32_of(crc_region(b2)) == crc32_of(crc_region(b))
            &&& hdr_crc(b2) != crc32_of(crc_region(b2))
            &&& !image_valid(b2)
        }),
{
    let b2 = b.update(i, v);
    assert(b2.subrange(0, 8) =~= b.subrange(0, 8));
    assert(b2.subrange(8, 12) =~= b.subrange(8, 12));
    assert(b2.subrange(16, 48) =~= b.subrange(16, 48));
    assert(b2.subrange(48, 56) =~= b.subrange(48, 56));
    assert(b2.subrange(0, 12) =~= b.subrange(0, 12));
    assert(b2.subrange(16, 128) =~= b.subrange(16, 128));
    assert(crc_region(b2) == crc_region(b));
    // the stored CRC differs: 4-byte little-endian decoding is injective
    let s1 = b.subrange(12, 16);
    let s2 = b2.subrange(12, 16);
    assert(s2[i - 12] == v);
    assert(s1[i - 12] == b[i]);
    assert(s1 != s2);
    lemma_auto_spec_u32_to_from_le_bytes();
    if spec_u32_from_le_bytes(s1) == spec_u32_from_le_bytes(s2) {
        assert(vstd::bytes::spec_u32_to_le_bytes(spec_u32_from_le_bytes(s1)) == s1);
        assert(vstd::bytes::spec_u32_to_le_bytes(spec_u32_from_le_bytes(s2)) == s2);
        assert(false);
    }
    assert(hdr_crc(b2) != hdr_crc(b));
}

} // verus!
