//! On-disk layout of a recording: a 128-byte header, a fixed index of
//! 65 536 slots of 128 bytes each, and an append-only data section. All
//! integers are little-endian. The codec here is the single source of truth
//! for the byte layout; writer and reader are proved against it.

use vstd::prelude::*;
use vstd::bytes::{
    spec_u32_to_le_bytes, spec_u64_to_le_bytes, spec_u32_from_le_bytes,
    spec_u64_from_le_bytes, u32_to_le_bytes, u64_to_le_bytes, u32_from_le_bytes, u64_from_le_bytes,
    lemma_auto_spec_u32_to_from_le_bytes, lemma_auto_spec_u64_to_from_le_bytes,
};
use vstd::slice::slice_subrange;

verus! {

/// File magic: `OULI` followed by `00 01 00 00`.
pub const FILE_MAGIC: [u8; 8] = [0x4F, 0x55, 0x4C, 0x49, 0x00, 0x01, 0x00, 0x00];

/// Current format version.
pub const FILE_VERSION: u32 = 1;

/// File header size in bytes.
pub const HEADER_SIZE: usize = 128;

/// Index entry size in bytes.
pub const INDEX_ENTRY_SIZE: usize = 128;

/// Maximum number of interactions per recording: the index has exactly this
/// many slots.
pub const CHAIN_DEPTH_MAX: u64 = 65536;

/// Start of the data section: header plus the full fixed-size index.
pub const DATA_OFFSET: u64 = 128 + 65536 * 128;

/// Capabilities a recording may declare in its header.
#[derive(Debug, Clone, Copy)]
pub enum FeatureFlags {
    /// No special features.
    NoFeatures,
    /// Data compression enabled.
    Compression,
    /// Checksums on all data blocks.
    Checksums,
    /// Extended metadata section.
    ExtendedMetadata,
}

impl FeatureFlags {
    /// The bit this feature occupies in the header's flag word.
    pub open spec fn spec_bit(self) -> u32 {
        match self {
            FeatureFlags::NoFeatures => 0,
            FeatureFlags::Compression => 1,
            FeatureFlags::Checksums => 2,
            FeatureFlags::ExtendedMetadata => 4,
        }
    }

    /// The bit this feature occupies in the header's flag word.
    pub fn bit(self) -> (r: u32)
        ensures
            r == self.spec_bit(),
    {
        match self {
            FeatureFlags::NoFeatures => 0,
            FeatureFlags::Compression => 1,
            FeatureFlags::Checksums => 2,
            FeatureFlags::ExtendedMetadata => 4,
        }
    }
}

/// Compression algorithm recorded in the header.
#[derive(Debug, Clone, Copy, PartialEq, Eq, Structural)]
pub enum CompressionType {
    /// No compression.
    NoCompression,
    /// LZ4 compression (fast).
    Lz4,
    /// Zstd compression (balanced).
    Zstd,
}

impl CompressionType {
    /// The code stored in the header's compression byte.
    pub open spec fn spec_code(self) -> u8 {
        match self {
            CompressionType::NoCompression => 0,
            CompressionType::Lz4 => 1,
            CompressionType::Zstd => 2,
        }
    }

    /// The code stored in the header's compression byte.
    pub fn code(self) -> (r: u8)
        ensures
            r == self.spec_code(),
    {
        match self {
            CompressionType::NoCompression => 0,
            CompressionType::Lz4 => 1,
            CompressionType::Zstd => 2,
        }
    }
}

/// File header (serialized to 128 bytes).
#[derive(Debug, Clone, Copy)]
pub struct FileHeader {
    /// Magic bytes for file format identification.
    pub magic: [u8; 8],
    /// Format version.
    pub version: u32,
    /// CRC-32 of the header bytes, the CRC field itself excluded. Computed
    /// and written at finalize; zero while a recording is in progress.
    pub header_crc: u32,
    /// Recording ID (SHA-256 of test name and creation time).
    pub recording_id: [u8; 32],
    /// Number of interactions stored.
    pub interaction_count: u64,
    /// Offset of the data section; fixed at `DATA_OFFSET`.
    pub data_offset: u64,
    /// Bytes written to the data section (header and index excluded).
    pub file_size: u64,
    /// Creation timestamp (Unix epoch nanoseconds).
    pub created_at: u64,
    /// Chain state after the last interaction; set at finalize.
    pub final_chain_state: [u8; 32],
    /// Feature flags (bitfield).
    pub feature_flags: u32,
    /// Compression algorithm code.
    pub compression_type: u8,
    /// Compression level (0-9, algorithm-specific).
    pub compression_level: u8,
    /// Reserved; zero.
    pub reserved: [u8; 10],
}

impl FileHeader {
    /// The header a fresh recording starts from: magic and version set,
    /// counters zero, data offset fixed, identifiers zeroed.
    pub fn new_default() -> (r: Self)
        ensures
            r.magic@ == FILE_MAGIC@,
            r.version == FILE_VERSION,
            r.header_crc == 0,
            r.recording_id@ == zero_bytes(32),
            r.interaction_count == 0,
            r.data_offset == DATA_OFFSET,
            r.file_size == 0,
            r.created_at == 0,
            r.final_chain_state@ == zero_bytes(32),
            r.feature_flags == 0,
            r.compression_type == 0,
            r.compression_level == 0,
            r.reserved@ == zero_bytes(10),
    {
        let r = FileHeader {
            magic: FILE_MAGIC,
            version: FILE_VERSION,
            header_crc: 0,
            recording_id: [0; 32],
            interaction_count: 0,
            data_offset: DATA_OFFSET,
            file_size: 0,
            created_at: 0,
            final_chain_state: [0; 32],
            feature_flags: 0,
            compression_type: 0,
            compression_level: 0,
            reserved: [0; 10],
        };
        proof {
            assert(r.recording_id@ =~= zero_bytes(32));
            assert(r.final_chain_state@ =~= zero_bytes(32));
            assert(r.reserved@ =~= zero_bytes(10));
        }
        r
    }

    /// True when the given feature flag is set.
    pub fn has_feature(&self, flag: FeatureFlags) -> (r: bool)
        ensures
            r == ((self.feature_flags & flag.spec_bit()) != 0),
    {
        (self.feature_flags & flag.bit()) != 0
    }

    /// Sets a feature flag.
    pub fn enable_feature(&mut self, flag: FeatureFlags)
        ensures
            final(self).feature_flags == (old(self).feature_flags | flag.spec_bit()),
            final(self).magic == old(self).magic,
            final(self).version == old(self).version,
            final(self).header_crc == old(self).header_crc,
            final(self).recording_id == old(self).recording_id,
            final(self).interaction_count == old(self).interaction_count,
            final(self).data_offset == old(self).data_offset,
            final(self).file_size == old(self).file_size,
            final(self).created_at == old(self).created_at,
            final(self).final_chain_state == old(self).final_chain_state,
            final(self).compression_type == old(self).compression_type,
            final(self).compression_level == old(self).compression_level,
            final(self).reserved == old(self).reserved,
    {
        self.feature_flags = self.feature_flags | flag.bit();
    }

    /// The compression algorithm recorded in the header; unknown codes read
    /// as no compression.
    pub fn compression(&self) -> (r: CompressionType)
        ensures
            r == (if self.compression_type == 1 {
                CompressionType::Lz4
            } else if self.compression_type == 2 {
                CompressionType::Zstd
            } else {
                CompressionType::NoCompression
            }),
    {
        if self.compression_type == 1 {
            CompressionType::Lz4
        } else if self.compression_type == 2 {
            CompressionType::Zstd
        } else {
            CompressionType::NoCompression
        }
    }

    /// Records the compression algorithm and level; any algorithm other than
    /// none also sets the compression feature flag.
    pub fn set_compression(&mut self, compression: CompressionType, level: u8)
        ensures
            final(self).compression_type == compression.spec_code(),
            final(self).compression_level == level,
            final(self).feature_flags == (if compression.spec_code() != 0 {
                old(self).feature_flags | FeatureFlags::Compression.spec_bit()
            } else {
                old(self).feature_flags
            }),
            final(self).magic == old(self).magic,
            final(self).version == old(self).version,
            final(self).header_crc == old(self).header_crc,
            final(self).recording_id == old(self).recording_id,
            final(self).interaction_count == old(self).interaction_count,
            final(self).data_offset == old(self).data_offset,
            final(self).file_size == old(self).file_size,
            final(self).created_at == old(self).created_at,
            final(self).final_chain_state == old(self).final_chain_state,
            final(self).reserved == old(self).reserved,
    {
        self.compression_type = compression.code();
        self.compression_level = level;
        if compression.code() != 0 {
            self.enable_feature(FeatureFlags::Compression);
        }
    }
}

/// Index entry for a single interaction (serialized to 128 bytes).
#[derive(Debug, Clone, Copy)]
pub struct InteractionEntry {
    /// Request hash (SHA-256).
    pub request_hash: [u8; 32],
    /// Previous request hash in the chain.
    pub prev_request_hash: [u8; 32],
    /// Absolute file offset of the request blob.
    pub request_offset: u64,
    /// Absolute file offset of the response blob.
    pub response_offset: u64,
    /// Timestamp (Unix epoch nanoseconds).
    pub timestamp: u64,
    /// Request blob size in bytes.
    pub request_size: u32,
    /// Response blob size in bytes.
    pub response_size: u32,
    /// Reserved; zero.
    pub reserved: [u8; 32],
}

/// Request blob framing header, as laid out on disk.
#[derive(Debug, Clone, Copy)]
pub struct RequestHeader {
    /// Body length.
    pub body_len: u32,
    /// CRC-32 of the request data.
    pub crc: u32,
    /// HTTP method length.
    pub method_len: u16,
    /// Path length.
    pub path_len: u16,
    /// Number of headers.
    pub header_count: u16,
    /// Reserved; zero.
    pub reserved: [u8; 10],
}

/// Response blob framing header, as laid out on disk.
#[derive(Debug, Clone, Copy)]
pub struct ResponseHeader {
    /// Body length.
    pub body_len: u32,
    /// Number of chunks (for streaming).
    pub chunk_count: u32,
    /// CRC-32 of the response data.
    pub crc: u32,
    /// HTTP status code.
    pub status: u16,
    /// Number of headers.
    pub header_count: u16,
    /// Reserved; zero.
    pub reserved: [u8; 8],
}

/// The serialized bytes of a header.
pub open spec fn spec_header_bytes(h: FileHeader) -> Seq<u8> {
    h.magic@ + spec_u32_to_le_bytes(h.version) + spec_u32_to_le_bytes(h.header_crc)
        + h.recording_id@ + spec_u64_to_le_bytes(h.interaction_count) + spec_u64_to_le_bytes(
        h.data_offset,
    ) + spec_u64_to_le_bytes(h.file_size) + spec_u64_to_le_bytes(h.created_at)
        + h.final_chain_state@ + spec_u32_to_le_bytes(h.feature_flags) + seq![
        h.compression_type,
        h.compression_level,
    ] + h.reserved@
}

/// The serialized bytes of an index entry.
pub open spec fn spec_entry_bytes(e: InteractionEntry) -> Seq<u8> {
    e.request_hash@ + e.prev_request_hash@ + spec_u64_to_le_bytes(e.request_offset)
        + spec_u64_to_le_bytes(e.response_offset) + spec_u64_to_le_bytes(e.timestamp)
        + spec_u32_to_le_bytes(e.request_size) + spec_u32_to_le_bytes(e.response_size) + e.reserved@
}

/// `n` zero bytes.
pub open spec fn zero_bytes(n: nat) -> Seq<u8> {
    Seq::new(n, |i: int| 0u8)
}

/// Field extractors over the first 128 bytes of a recording image.
pub open spec fn hdr_magic(b: Seq<u8>) -> Seq<u8> {
    b.subrange(0, 8)
}

pub open spec fn hdr_version(b: Seq<u8>) -> u32 {
    spec_u32_from_le_bytes(b.subrange(8, 12))
}

pub open spec fn hdr_crc(b: Seq<u8>) -> u32 {
    spec_u32_from_le_bytes(b.subrange(12, 16))
}

pub open spec fn hdr_recording_id(b: Seq<u8>) -> Seq<u8> {
    b.subrange(16, 48)
}

pub open spec fn hdr_interaction_count(b: Seq<u8>) -> u64 {
    spec_u64_from_le_bytes(b.subrange(48, 56))
}

pub open spec fn hdr_data_offset(b: Seq<u8>) -> u64 {
    spec_u64_from_le_bytes(b.subrange(56, 64))
}

pub open spec fn hdr_file_size(b: Seq<u8>) -> u64 {
    spec_u64_from_le_bytes(b.subrange(64, 72))
}

pub open spec fn hdr_created_at(b: Seq<u8>) -> u64 {
    spec_u64_from_le_bytes(b.subrange(72, 80))
}

pub open spec fn hdr_final_chain_state(b: Seq<u8>) -> Seq<u8> {
    b.subrange(80, 112)
}

pub open spec fn hdr_feature_flags(b: Seq<u8>) -> u32 {
    spec_u32_from_le_bytes(b.subrange(112, 116))
}

/// The bytes covered by the header CRC: everything in the first 128 bytes
/// except the CRC field itself at offsets 12..16.
pub open spec fn crc_region(b: Seq<u8>) -> Seq<u8> {
    b.subrange(0, 12) + b.subrange(16, 128)
}

/// A parsed header agrees with the leading 128 bytes of an image.
pub open spec fn header_matches(h: FileHeader, b: Seq<u8>) -> bool {
    &&& h.magic@ == hdr_magic(b)
    &&& h.version == hdr_version(b)
    &&& h.header_crc == hdr_crc(b)
    &&& h.recording_id@ == hdr_recording_id(b)
    &&& h.interaction_count == hdr_interaction_count(b)
    &&& h.data_offset == hdr_data_offset(b)
    &&& h.file_size == hdr_file_size(b)
    &&& h.created_at == hdr_created_at(b)
    &&& h.final_chain_state@ == hdr_final_chain_state(b)
    &&& h.feature_flags == hdr_feature_flags(b)
    &&& h.compression_type == b[116]
    &&& h.compression_level == b[117]
    &&& h.reserved@ == b.subrange(118, 128)
}

/// A parsed entry agrees with a 128-byte index slot.
pub open spec fn entry_matches(e: InteractionEntry, b: Seq<u8>) -> bool {
    &&& e.request_hash@ == b.subrange(0, 32)
    &&& e.prev_request_hash@ == b.subrange(32, 64)
    &&& e.request_offset == spec_u64_from_le_bytes(b.subrange(64, 72))
    &&& e.response_offset == spec_u64_from_le_bytes(b.subrange(72, 80))
    &&& e.timestamp == spec_u64_from_le_bytes(b.subrange(80, 88))
    &&& e.request_size == spec_u32_from_le_bytes(b.subrange(88, 92))
    &&& e.response_size == spec_u32_from_le_bytes(b.subrange(92, 96))
    &&& e.reserved@ == b.subrange(96, 128)
}

/// Serialized headers are 128 bytes long.
pub proof fn lemma_header_bytes_len(h: FileHeader)
    ensures
        spec_header_bytes(h).len() == 128,
{
    lemma_auto_spec_u32_to_from_le_bytes();
    lemma_auto_spec_u64_to_from_le_bytes();
}

/// Serialized entries are 128 bytes long.
pub proof fn lemma_entry_bytes_len(e: InteractionEntry)
    ensures
        spec_entry_bytes(e).len() == 128,
{
    lemma_auto_spec_u32_to_from_le_bytes();
    lemma_auto_spec_u64_to_from_le_bytes();
}

/// Parsing the serialized bytes of a header yields the header back.
pub proof fn lemma_header_roundtrip(h: FileHeader)
    ensures
        header_matches(h, spec_header_bytes(h)),
{
    lemma_auto_spec_u32_to_from_le_bytes();
    lemma_auto_spec_u64_to_from_le_bytes();
    let b = spec_header_bytes(h);
    assert(b.subrange(0, 8) =~= h.magic@);
    assert(b.subrange(8, 12) =~= spec_u32_to_le_bytes(h.version));
    assert(b.subrange(12, 16) =~= spec_u32_to_le_bytes(h.header_crc));
    assert(b.subrange(16, 48) =~= h.recording_id@);
    assert(b.subrange(48, 56) =~= spec_u64_to_le_bytes(h.interaction_count));
    assert(b.subrange(56, 64) =~= spec_u64_to_le_bytes(h.data_offset));
    assert(b.subrange(64, 72) =~= spec_u64_to_le_bytes(h.file_size));
    assert(b.subrange(72, 80) =~= spec_u64_to_le_bytes(h.created_at));
    assert(b.subrange(80, 112) =~= h.final_chain_state@);
    assert(b.subrange(112, 116) =~= spec_u32_to_le_bytes(h.feature_flags));
    assert(b[116] == h.compression_type);
    assert(b[117] == h.compression_level);
    assert(b.subrange(118, 128) =~= h.reserved@);
}

/// Parsing the serialized bytes of an entry yields the entry back.
pub proof fn lemma_entry_roundtrip(e: InteractionEntry)
    ensures
        entry_matches(e, spec_entry_bytes(e)),
{
    lemma_auto_spec_u32_to_from_le_bytes();
    lemma_auto_spec_u64_to_from_le_bytes();
    let b = spec_entry_bytes(e);
    assert(b.subrange(0, 32) =~= e.request_hash@);
    assert(b.subrange(32, 64) =~= e.prev_request_hash@);
    assert(b.subrange(64, 72) =~= spec_u64_to_le_bytes(e.request_offset));
    assert(b.subrange(72, 80) =~= spec_u64_to_le_bytes(e.response_offset));
    assert(b.subrange(80, 88) =~= spec_u64_to_le_bytes(e.timestamp));
    assert(b.subrange(88, 92) =~= spec_u32_to_le_bytes(e.request_size));
    assert(b.subrange(92, 96) =~= spec_u32_to_le_bytes(e.response_size));
    assert(b.subrange(96, 128) =~= e.reserved@);
}

/// Headers differing only in the CRC field cover the same CRC region.
pub proof fn lemma_crc_region_ignores_crc(h1: FileHeader, h2: FileHeader)
    requires
        h1.magic == h2.magic,
        h1.version == h2.version,
        h1.recording_id == h2.recording_id,
        h1.interaction_count == h2.interaction_count,
        h1.data_offset == h2.data_offset,
        h1.file_size == h2.file_size,
        h1.created_at == h2.created_at,
        h1.final_chain_state == h2.final_chain_state,
        h1.feature_flags == h2.feature_flags,
        h1.compression_type == h2.compression_type,
        h1.compression_level == h2.compression_level,
        h1.reserved == h2.reserved,
    ensures
        crc_region(spec_header_bytes(h1)) == crc_region(spec_header_bytes(h2)),
{
    lemma_header_bytes_len(h1);
    lemma_header_bytes_len(h2);
    lemma_auto_spec_u32_to_from_le_bytes();
    lemma_auto_spec_u64_to_from_le_bytes();
    let b1 = spec_header_bytes(h1);
    let b2 = spec_header_bytes(h2);
    assert(b1.subrange(0, 12) =~= b2.subrange(0, 12));
    assert(b1.subrange(16, 128) =~= b2.subrange(16, 128));
}

/// Serializes a file header to its 128-byte form.
pub fn header_to_bytes(h: &FileHeader) -> (r: Vec<u8>)
    ensures
        r@ == spec_header_bytes(*h),
        r@.len() == 128,
{
    proof {
        lemma_header_bytes_len(*h);
    }
    let mut r: Vec<u8> = Vec::new();
    r.extend_from_slice(h.magic.as_slice());
    let mut t = u32_to_le_bytes(h.version);
    r.append(&mut t);
    let mut t = u32_to_le_bytes(h.header_crc);
    r.append(&mut t);
    r.extend_from_slice(h.recording_id.as_slice());
    let mut t = u64_to_le_bytes(h.interaction_count);
    r.append(&mut t);
    let mut t = u64_to_le_bytes(h.data_offset);
    r.append(&mut t);
    let mut t = u64_to_le_bytes(h.file_size);
    r.append(&mut t);
    let mut t = u64_to_le_bytes(h.created_at);
    r.append(&mut t);
    r.extend_from_slice(h.final_chain_state.as_slice());
    let mut t = u32_to_le_bytes(h.feature_flags);
    r.append(&mut t);
    r.push(h.compression_type);
    r.push(h.compression_level);
    r.extend_from_slice(h.reserved.as_slice());
    proof {
        assert(r@ =~= spec_header_bytes(*h));
    }
    r
}

/// Serializes an index entry to its 128-byte form.
pub fn entry_to_bytes(e: &InteractionEntry) -> (r: Vec<u8>)
    ensures
        r@ == spec_entry_bytes(*e),
        r@.len() == 128,
{
    proof {
        lemma_entry_bytes_len(*e);
    }
    let mut r: Vec<u8> = Vec::new();
    r.extend_from_slice(e.request_hash.as_slice());
    r.extend_from_slice(e.prev_request_hash.as_slice());
    let mut t = u64_to_le_bytes(e.request_offset);
    r.append(&mut t);
    let mut t = u64_to_le_bytes(e.response_offset);
    r.append(&mut t);
    let mut t = u64_to_le_bytes(e.timestamp);
    r.append(&mut t);
    let mut t = u32_to_le_bytes(e.request_size);
    r.append(&mut t);
    let mut t = u32_to_le_bytes(e.response_size);
    r.append(&mut t);
    r.extend_from_slice(e.reserved.as_slice());
    proof {
        assert(r@ =~= spec_entry_bytes(*e));
    }
    r
}

/// Copies `N` bytes starting at `off` into a fresh array.
pub fn read_array<const N: usize>(b: &[u8], off: usize) -> (r: [u8; N])
    requires
        off + N <= b@.len(),
    ensures
        r@ =~= b@.subrange(off as int, off + N),
{
    let blen = b.len();
    let mut r: [u8; N] = [0; N];
    let mut i: usize = 0;
    while i < N
        invariant
            0 <= i <= N,
            off + N <= b@.len(),
            blen == b@.len(),
            r@.len() == N,
            forall|j: int| 0 <= j < i ==> r@[j] == b@[off + j],
        decreases N - i,
    {
        r[i] = b[off + i];
        i = i + 1;
    }
    r
}

/// Parses the leading 128 bytes of an image into a header.
pub fn header_from_bytes(b: &[u8]) -> (h: FileHeader)
    requires
        b@.len() >= 128,
    ensures
        header_matches(h, b@),
{
    let magic: [u8; 8] = read_array(b, 0);
    let version = u32_from_le_bytes(slice_subrange(b, 8, 12));
    let header_crc = u32_from_le_bytes(slice_subrange(b, 12, 16));
    let recording_id: [u8; 32] = read_array(b, 16);
    let interaction_count = u64_from_le_bytes(slice_subrange(b, 48, 56));
    let data_offset = u64_from_le_bytes(slice_subrange(b, 56, 64));
    let file_size = u64_from_le_bytes(slice_subrange(b, 64, 72));
    let created_at = u64_from_le_bytes(slice_subrange(b, 72, 80));
    let final_chain_state: [u8; 32] = read_array(b, 80);
    let feature_flags = u32_from_le_bytes(slice_subrange(b, 112, 116));
    let compression_type = *vstd::slice::slice_index_get(b, 116);
    let compression_level = *vstd::slice::slice_index_get(b, 117);
    let reserved: [u8; 10] = read_array(b, 118);
    FileHeader {
        magic,
        version,
        header_crc,
        recording_id,
        interaction_count,
        data_offset,
        file_size,
        created_at,
        final_chain_state,
        feature_flags,
        compression_type,
        compression_level,
        reserved,
    }
}

/// Parses a 128-byte index slot starting at `off`.
pub fn entry_from_bytes(b: &[u8], off: usize) -> (e: InteractionEntry)
    requires
        off + 128 <= b@.len(),
    ensures
        entry_matches(e, b@.subrange(off as int, off + 128)),
{
    let blen = b.len();
    let ghost s = b@.subrange(off as int, off + 128);
    let request_hash: [u8; 32] = read_array(b, off);
    let prev_request_hash: [u8; 32] = read_array(b, off + 32);
    let request_offset = u64_from_le_bytes(slice_subrange(b, off + 64, off + 72));
    let response_offset = u64_from_le_bytes(slice_subrange(b, off + 72, off + 80));
    let timestamp = u64_from_le_bytes(slice_subrange(b, off + 80, off + 88));
    let request_size = u32_from_le_bytes(slice_subrange(b, off + 88, off + 92));
    let response_size = u32_from_le_bytes(slice_subrange(b, off + 92, off + 96));
    let reserved: [u8; 32] = read_array(b, off + 96);
    proof {
        assert(s.subrange(0, 32) =~= b@.subrange(off as int, off + 32));
        assert(s.subrange(32, 64) =~= b@.subrange(off + 32, off + 64));
        assert(s.subrange(64, 72) =~= b@.subrange(off + 64, off + 72));
        assert(s.subrange(72, 80) =~= b@.subrange(off + 72, off + 80));
        assert(s.subrange(80, 88) =~= b@.subrange(off + 80, off + 88));
        assert(s.subrange(88, 92) =~= b@.subrange(off + 88, off + 92));
        assert(s.subrange(92, 96) =~= b@.subrange(off + 92, off + 96));
        assert(s.subrange(96, 128) =~= b@.subrange(off + 96, off + 128));
    }
    InteractionEntry {
        request_hash,
        prev_request_hash,
        request_offset,
        response_offset,
        timestamp,
        request_size,
        response_size,
        reserved,
    }
}

/// Validates magic and version of a parsed header.
pub fn validate_header(header: &FileHeader) -> (r: Result<(), crate::errors::OuliError>)
    ensures
        r is Ok <==> header.magic@ == FILE_MAGIC@ && header.version == FILE_VERSION,
        r is Err ==> (r->Err_0 is InvalidFormat),
{
    let magic_ok = {
        let mut ok = true;
        let mut i: usize = 0;
        while i < 8
            invariant
                0 <= i <= 8,
                ok == (forall|j: int| 0 <= j < i ==> header.magic@[j] == FILE_MAGIC@[j]),
            decreases 8 - i,
        {
            let a = *vstd::array::array_index_get(&header.magic, i);
            let m = *vstd::array::array_index_get(&FILE_MAGIC, i);
            if a != m {
                ok = false;
            }
            i = i + 1;
        }
        proof {
            if ok {
                assert(header.magic@ =~= FILE_MAGIC@);
            }
        }
        ok
    };
    if !magic_ok {
        return Err(crate::errors::OuliError::InvalidFormat("invalid magic bytes".to_owned()));
    }
    if header.version != FILE_VERSION {
        return Err(crate::errors::OuliError::InvalidFormat("unsupported version".to_owned()));
    }
    Ok(())
}

/// The full serialized image of a recording: header, index (used slots then
/// zero padding), data section.
pub open spec fn spec_index_bytes(entries: Seq<InteractionEntry>) -> Seq<u8>
    decreases entries.len(),
{
    if entries.len() == 0 {
        Seq::<u8>::empty()
    } else {
        spec_entry_bytes(entries[0]) + spec_index_bytes(entries.drop_first())
    }
}

pub open spec fn spec_image(
    h: FileHeader,
    entries: Seq<InteractionEntry>,
    data: Seq<u8>,
) -> Seq<u8> {
    spec_header_bytes(h) + spec_index_bytes(entries) + zero_bytes(
        ((65536 - entries.len()) * 128) as nat,
    ) + data
}

/// The index bytes of `n` entries occupy `128 * n` bytes.
pub proof fn lemma_index_bytes_len(entries: Seq<InteractionEntry>)
    ensures
        spec_index_bytes(entries).len() == 128 * entries.len(),
    decreases entries.len(),
{
    if entries.len() > 0 {
        lemma_entry_bytes_len(entries[0]);
        lemma_index_bytes_len(entries.drop_first());
    }
}

/// Appending one entry extends the index bytes by its 128-byte slot.
pub proof fn lemma_index_bytes_push(entries: Seq<InteractionEntry>, e: InteractionEntry)
    ensures
        spec_index_bytes(entries.push(e)) =~= spec_index_bytes(entries) + spec_entry_bytes(e),
    decreases entries.len(),
{
    if entries.len() == 0 {
        assert(entries.push(e)[0] == e);
        assert(entries.push(e).drop_first() =~= Seq::<InteractionEntry>::empty());
        assert(spec_index_bytes(entries.push(e)) == spec_entry_bytes(e) + spec_index_bytes(
            Seq::<InteractionEntry>::empty(),
        ));
        assert(spec_index_bytes(entries) =~= Seq::<u8>::empty());
    } else {
        assert(entries.push(e)[0] == entries[0]);
        assert(entries.push(e).drop_first() =~= entries.drop_first().push(e));
        lemma_index_bytes_push(entries.drop_first(), e);
        assert(spec_index_bytes(entries.push(e)) == spec_entry_bytes(entries[0])
            + spec_index_bytes(entries.drop_first().push(e)));
    }
}

/// The slot of entry `i` within the index bytes.
pub proof fn lemma_index_bytes_slot(entries: Seq<InteractionEntry>, i: int)
    requires
        0 <= i < entries.len(),
    ensures
        spec_index_bytes(entries).subrange(128 * i, 128 * (i + 1)) =~= spec_entry_bytes(
            entries[i],
        ),
    decreases entries.len(),
{
    lemma_index_bytes_len(entries);
    lemma_entry_bytes_len(entries[0]);
    lemma_index_bytes_len(entries.drop_first());
    if i == 0 {
        assert(spec_index_bytes(entries).subrange(0, 128) =~= spec_entry_bytes(entries[0]));
    } else {
        lemma_index_bytes_slot(entries.drop_first(), i - 1);
        assert(spec_index_bytes(entries).subrange(128 * i, 128 * (i + 1)) =~= spec_index_bytes(
            entries.drop_first(),
        ).subrange(128 * (i - 1), 128 * i));
    }
}

} // verus!
