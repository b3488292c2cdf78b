use vstd::prelude::*;

use crate::common::{
    contains_str, contains_text, is_strictly_sorted, positive_safe, safe, spec_positive_safe, spec_safe,
    str_equal, strictly_sorted, valid_id, valid_id_chars,
};
use crate::config::{
    has_source_id, same_identity, source_admitted, spec_encoding_for_source, spec_repair_symbols,
    spec_source_for_ref, spec_source_symbols, AuthoritativeStemConfig, CompositeIdentity, FecStrategy,
    SourceDefinition, StemConfigParts, StemEncoding,
};
use vstd::slice::slice_subrange;
use crate::error::{stem_error, StemError, StemErrorCode};

verus! {

pub const SST1_MAGIC: [u8; 4] = [0x53, 0x53, 0x54, 0x31];

pub const SST1_HEADER_BYTES: usize = 84;

pub const SST1_AEAD_TAG_BYTES: usize = 16;

pub const SST1_MIN_DATAGRAM_BYTES: usize = SST1_HEADER_BYTES + SST1_AEAD_TAG_BYTES + 1;

pub const SST1_MAX_PAYLOAD_BYTES: usize = 1_400;

/// The four magic bytes `SST1`.
pub open spec fn sst1_magic() -> Seq<u8> {
    seq![0x53u8, 0x53u8, 0x54u8, 0x31u8]
}

#[derive(Clone, Copy, Debug, PartialEq, Eq, Structural)]
pub enum SymbolKind {
    Source,
    Repair,
}

pub open spec fn symbol_kind_code(kind: SymbolKind) -> u8 {
    match kind {
        SymbolKind::Source => 0,
        SymbolKind::Repair => 1,
    }
}

pub open spec fn symbol_kind_from_code(value: u8) -> Option<SymbolKind> {
    if value == 0 {
        Some(SymbolKind::Source)
    } else if value == 1 {
        Some(SymbolKind::Repair)
    } else {
        None
    }
}

pub open spec fn encoding_code(encoding: StemEncoding) -> u8 {
    match encoding {
        StemEncoding::PcmS24le => 1,
        StemEncoding::FlacS24le => 2,
        StemEncoding::Opus => 3,
    }
}

pub open spec fn encoding_from_code(value: u8) -> Option<StemEncoding> {
    if value == 1 {
        Some(StemEncoding::PcmS24le)
    } else if value == 2 {
        Some(StemEncoding::FlacS24le)
    } else if value == 3 {
        Some(StemEncoding::Opus)
    } else {
        None
    }
}

impl SymbolKind {
    pub fn code(self) -> (res: u8)
        ensures
            res == symbol_kind_code(self),
    {
        match self {
            SymbolKind::Source => 0,
            SymbolKind::Repair => 1,
        }
    }

    pub fn from_code(value: u8) -> (res: Result<Self, StemError>)
        ensures
            match symbol_kind_from_code(value) {
                Some(kind) => res == Ok::<SymbolKind, StemError>(kind),
                None => res == Err::<SymbolKind, StemError>(stem_error(StemErrorCode::InvalidHeader, "symbolKind")),
            },
    {
        match value {
            0 => Ok(SymbolKind::Source),
            1 => Ok(SymbolKind::Repair),
            _ => Err(StemError::new(StemErrorCode::InvalidHeader, "symbolKind")),
        }
    }
}

impl StemEncoding {
    pub fn code(self) -> (res: u8)
        ensures
            res == encoding_code(self),
    {
        match self {
            StemEncoding::PcmS24le => 1,
            StemEncoding::FlacS24le => 2,
            StemEncoding::Opus => 3,
        }
    }

    pub fn from_code(value: u8) -> (res: Result<Self, StemError>)
        ensures
            match encoding_from_code(value) {
                Some(encoding) => res == Ok::<StemEncoding, StemError>(encoding),
                None => res == Err::<StemEncoding, StemError>(stem_error(StemErrorCode::InvalidHeader, "encoding")),
            },
    {
        match value {
            1 => Ok(StemEncoding::PcmS24le),
            2 => Ok(StemEncoding::FlacS24le),
            3 => Ok(StemEncoding::Opus),
            _ => Err(StemError::new(StemErrorCode::InvalidHeader, "encoding")),
        }
    }
}

/// Big-endian value of two bytes.
pub open spec fn be16(b: Seq<u8>) -> u16 {
    ((b[0] as u16) << 8u16) | (b[1] as u16)
}

/// Big-endian value of four bytes.
pub open spec fn be32(b: Seq<u8>) -> u32 {
    ((b[0] as u32) << 24u32) | ((b[1] as u32) << 16u32) | ((b[2] as u32) << 8u32) | (b[3] as u32)
}

/// Big-endian value of eight bytes.
pub open spec fn be64(b: Seq<u8>) -> u64 {
    ((b[0] as u64) << 56u64) | ((b[1] as u64) << 48u64) | ((b[2] as u64) << 40u64) | ((b[3] as u64) << 32u64)
        | ((b[4] as u64) << 24u64) | ((b[5] as u64) << 16u64) | ((b[6] as u64) << 8u64) | (b[7] as u64)
}

/// Big-endian bytes of a 16-bit value.
pub open spec fn u16_be(v: u16) -> Seq<u8> {
    seq![(v >> 8u16) as u8, v as u8]
}

/// Big-endian bytes of a 32-bit value.
pub open spec fn u32_be(v: u32) -> Seq<u8> {
    seq![(v >> 24u32) as u8, (v >> 16u32) as u8, (v >> 8u32) as u8, v as u8]
}

/// Big-endian bytes of a 64-bit value.
pub open spec fn u64_be(v: u64) -> Seq<u8> {
    seq![
        (v >> 56u64) as u8,
        (v >> 48u64) as u8,
        (v >> 40u64) as u8,
        (v >> 32u64) as u8,
        (v >> 24u64) as u8,
        (v >> 16u64) as u8,
        (v >> 8u64) as u8,
        v as u8,
    ]
}

/// The fixed 84-byte `SST1` header of one stem symbol.
#[derive(Clone, Copy, Debug, PartialEq, Eq, Structural)]
pub struct StemDatagramHeader {
    pub topology_generation: u64,
    pub binding_generation: u64,
    pub config_ref: u32,
    pub config_generation: u64,
    pub source_map_version: u32,
    pub key_epoch: u32,
    pub source_ref: u16,
    pub symbol_kind: SymbolKind,
    pub symbol_index: u16,
    pub source_symbol_count: u16,
    pub repair_symbol_count: u16,
    pub epoch_number: u64,
    pub remote_pts: u64,
    pub group_sequence: u64,
    pub frame_samples: u32,
    pub encoding: StemEncoding,
    pub payload_byte_count: u16,
    pub datagram_byte_count: u16,
}

/// The network-big-endian layout: magic, version 1, symbol kind, encoding, a
/// zero reserved byte, then the numeric fields in declaration order.
pub open spec fn header_wire_bytes(h: StemDatagramHeader) -> Seq<u8> {
    sst1_magic() + seq![1u8, symbol_kind_code(h.symbol_kind), encoding_code(h.encoding), 0u8]
        + u64_be(h.topology_generation) + u64_be(h.binding_generation) + u32_be(h.config_ref)
        + u64_be(h.config_generation) + u32_be(h.source_map_version) + u32_be(h.key_epoch)
        + u16_be(h.source_ref) + u16_be(h.symbol_index) + u16_be(h.source_symbol_count)
        + u16_be(h.repair_symbol_count) + u64_be(h.epoch_number) + u64_be(h.remote_pts)
        + u64_be(h.group_sequence) + u32_be(h.frame_samples) + u16_be(h.payload_byte_count)
        + u16_be(h.datagram_byte_count)
}

/// The header fields read from the bytes of a datagram.
pub open spec fn header_from_bytes(s: Seq<u8>, kind: SymbolKind, encoding: StemEncoding) -> StemDatagramHeader {
    StemDatagramHeader {
        topology_generation: be64(s.subrange(8, 16)),
        binding_generation: be64(s.subrange(16, 24)),
        config_ref: be32(s.subrange(24, 28)),
        config_generation: be64(s.subrange(28, 36)),
        source_map_version: be32(s.subrange(36, 40)),
        key_epoch: be32(s.subrange(40, 44)),
        source_ref: be16(s.subrange(44, 46)),
        symbol_kind: kind,
        symbol_index: be16(s.subrange(46, 48)),
        source_symbol_count: be16(s.subrange(48, 50)),
        repair_symbol_count: be16(s.subrange(50, 52)),
        epoch_number: be64(s.subrange(52, 60)),
        remote_pts: be64(s.subrange(60, 68)),
        group_sequence: be64(s.subrange(68, 76)),
        frame_samples: be32(s.subrange(76, 80)),
        encoding,
        payload_byte_count: be16(s.subrange(80, 82)),
        datagram_byte_count: be16(s.subrange(82, 84)),
    }
}

/// The structural checks of a header on its own.
pub open spec fn structural_check(h: StemDatagramHeader) -> Result<(), StemError> {
    if !spec_positive_safe(h.topology_generation) || !spec_positive_safe(h.binding_generation) || h.config_ref == 0
        || !spec_positive_safe(h.config_generation) || h.source_map_version == 0 || h.key_epoch == 0
        || h.source_ref == 0 || h.source_symbol_count == 0 || !spec_safe(h.epoch_number) || !spec_safe(h.remote_pts)
        || !spec_safe(h.group_sequence) || !(1 <= h.frame_samples <= 4_096) || h.payload_byte_count == 0
        || h.payload_byte_count > SST1_MAX_PAYLOAD_BYTES || h.datagram_byte_count < SST1_MIN_DATAGRAM_BYTES
        || h.datagram_byte_count > 1_500 {
        Err(stem_error(StemErrorCode::InvalidHeader, "headerFields"))
    } else if SST1_HEADER_BYTES + h.payload_byte_count + SST1_AEAD_TAG_BYTES != h.datagram_byte_count {
        Err(stem_error(StemErrorCode::DatagramSizeMismatch, "datagramByteCount"))
    } else {
        Ok(())
    }
}

/// Decoding of the first 84 bytes of a datagram.
pub open spec fn spec_decode(s: Seq<u8>) -> Result<StemDatagramHeader, StemError> {
    if s.len() < SST1_HEADER_BYTES || s.take(4) != sst1_magic() {
        Err(stem_error(StemErrorCode::InvalidHeader, "headerMagic"))
    } else if s[4] != 1 || s[7] != 0 {
        Err(stem_error(StemErrorCode::InvalidHeader, "schemaVersion/reserved"))
    } else if symbol_kind_from_code(s[5]) is None {
        Err(stem_error(StemErrorCode::InvalidHeader, "symbolKind"))
    } else if encoding_from_code(s[6]) is None {
        Err(stem_error(StemErrorCode::InvalidHeader, "encoding"))
    } else {
        let h = header_from_bytes(s, symbol_kind_from_code(s[5])->0, encoding_from_code(s[6])->0);
        match structural_check(h) {
            Ok(()) => Ok(h),
            Err(e) => Err(e),
        }
    }
}

fn read_u16(input: &[u8], offset: usize) -> (res: u16)
    requires
        offset + 2 <= input@.len(),
    ensures
        res == be16(input@.subrange(offset as int, offset + 2)),
{
    ((input[offset] as u16) << 8) | (input[offset + 1] as u16)
}

fn read_u32(input: &[u8], offset: usize) -> (res: u32)
    requires
        offset + 4 <= input@.len(),
    ensures
        res == be32(input@.subrange(offset as int, offset + 4)),
{
    ((input[offset] as u32) << 24) | ((input[offset + 1] as u32) << 16) | ((input[offset + 2] as u32) << 8)
        | (input[offset + 3] as u32)
}

fn read_u64(input: &[u8], offset: usize) -> (res: u64)
    requires
        offset + 8 <= input@.len(),
    ensures
        res == be64(input@.subrange(offset as int, offset + 8)),
{
    ((input[offset] as u64) << 56) | ((input[offset + 1] as u64) << 48) | ((input[offset + 2] as u64) << 40)
        | ((input[offset + 3] as u64) << 32) | ((input[offset + 4] as u64) << 24) | ((input[offset + 5] as u64) << 16)
        | ((input[offset + 6] as u64) << 8) | (input[offset + 7] as u64)
}

impl StemDatagramHeader {
    /// Decode and structurally validate the fixed `SST1` header.
    pub fn decode(input: &[u8]) -> (res: Result<Self, StemError>)
        ensures
            res == spec_decode(input@),
    {
        if input.len() < SST1_HEADER_BYTES || input[0] != 0x53 || input[1] != 0x53 || input[2] != 0x54
            || input[3] != 0x31 {
            proof {
                if input@.len() >= SST1_HEADER_BYTES {
                    assert(input@.take(4)[0] == input@[0] && input@.take(4)[1] == input@[1]);
                    assert(input@.take(4)[2] == input@[2] && input@.take(4)[3] == input@[3]);
                    assert(input@.take(4) != sst1_magic());
                }
            }
            return Err(StemError::new(StemErrorCode::InvalidHeader, "headerMagic"));
        }
        assert(input@.take(4) =~= sst1_magic());
        if input[4] != 1 || input[7] != 0 {
            return Err(StemError::new(StemErrorCode::InvalidHeader, "schemaVersion/reserved"));
        }
        let symbol_kind = match SymbolKind::from_code(input[5]) {
            Ok(kind) => kind,
            Err(e) => return Err(e),
        };
        let encoding = match StemEncoding::from_code(input[6]) {
            Ok(encoding) => encoding,
            Err(e) => return Err(e),
        };
        let value = StemDatagramHeader {
            topology_generation: read_u64(input, 8),
            binding_generation: read_u64(input, 16),
            config_ref: read_u32(input, 24),
            config_generation: read_u64(input, 28),
            source_map_version: read_u32(input, 36),
            key_epoch: read_u32(input, 40),
            source_ref: read_u16(input, 44),
            symbol_kind,
            symbol_index: read_u16(input, 46),
            source_symbol_count: read_u16(input, 48),
            repair_symbol_count: read_u16(input, 50),
            epoch_number: read_u64(input, 52),
            remote_pts: read_u64(input, 60),
            group_sequence: read_u64(input, 68),
            frame_samples: read_u32(input, 76),
            encoding,
            payload_byte_count: read_u16(input, 80),
            datagram_byte_count: read_u16(input, 82),
        };
        assert(value == header_from_bytes(input@, symbol_kind, encoding));
        match value.validate_structural() {
            Ok(()) => Ok(value),
            Err(e) => Err(e),
        }
    }

    /// Encode this header using the frozen network-big-endian layout.
    pub fn encode(self) -> (res: Result<[u8; SST1_HEADER_BYTES], StemError>)
        ensures
            match res {
                Ok(bytes) => structural_check(self) is Ok && bytes@ == header_wire_bytes(self),
                Err(e) => structural_check(self) == Err::<(), StemError>(e),
            },
    {
        match self.validate_structural() {
            Ok(()) => {},
            Err(e) => return Err(e),
        }
        let output: [u8; SST1_HEADER_BYTES] = [
            0x53,
            0x53,
            0x54,
            0x31,
            1,
            self.symbol_kind.code(),
            self.encoding.code(),
            0,
            (self.topology_generation >> 56) as u8,
            (self.topology_generation >> 48) as u8,
            (self.topology_generation >> 40) as u8,
            (self.topology_generation >> 32) as u8,
            (self.topology_generation >> 24) as u8,
            (self.topology_generation >> 16) as u8,
            (self.topology_generation >> 8) as u8,
            self.topology_generation as u8,
            (self.binding_generation >> 56) as u8,
            (self.binding_generation >> 48) as u8,
            (self.binding_generation >> 40) as u8,
            (self.binding_generation >> 32) as u8,
            (self.binding_generation >> 24) as u8,
            (self.binding_generation >> 16) as u8,
            (self.binding_generation >> 8) as u8,
            self.binding_generation as u8,
            (self.config_ref >> 24) as u8,
            (self.config_ref >> 16) as u8,
            (self.config_ref >> 8) as u8,
            self.config_ref as u8,
            (self.config_generation >> 56) as u8,
            (self.config_generation >> 48) as u8,
            (self.config_generation >> 40) as u8,
            (self.config_generation >> 32) as u8,
            (self.config_generation >> 24) as u8,
            (self.config_generation >> 16) as u8,
            (self.config_generation >> 8) as u8,
            self.config_generation as u8,
            (self.source_map_version >> 24) as u8,
            (self.source_map_version >> 16) as u8,
            (self.source_map_version >> 8) as u8,
            self.source_map_version as u8,
            (self.key_epoch >> 24) as u8,
            (self.key_epoch >> 16) as u8,
            (self.key_epoch >> 8) as u8,
            self.key_epoch as u8,
            (self.source_ref >> 8) as u8,
            self.source_ref as u8,
            (self.symbol_index >> 8) as u8,
            self.symbol_index as u8,
            (self.source_symbol_count >> 8) as u8,
            self.source_symbol_count as u8,
            (self.repair_symbol_count >> 8) as u8,
            self.repair_symbol_count as u8,
            (self.epoch_number >> 56) as u8,
            (self.epoch_number >> 48) as u8,
            (self.epoch_number >> 40) as u8,
            (self.epoch_number >> 32) as u8,
            (self.epoch_number >> 24) as u8,
            (self.epoch_number >> 16) as u8,
            (self.epoch_number >> 8) as u8,
            self.epoch_number as u8,
            (self.remote_pts >> 56) as u8,
            (self.remote_pts >> 48) as u8,
            (self.remote_pts >> 40) as u8,
            (self.remote_pts >> 32) as u8,
            (self.remote_pts >> 24) as u8,
            (self.remote_pts >> 16) as u8,
            (self.remote_pts >> 8) as u8,
            self.remote_pts as u8,
            (self.group_sequence >> 56) as u8,
            (self.group_sequence >> 48) as u8,
            (self.group_sequence >> 40) as u8,
            (self.group_sequence >> 32) as u8,
            (self.group_sequence >> 24) as u8,
            (self.group_sequence >> 16) as u8,
            (self.group_sequence >> 8) as u8,
            self.group_sequence as u8,
            (self.frame_samples >> 24) as u8,
            (self.frame_samples >> 16) as u8,
            (self.frame_samples >> 8) as u8,
            self.frame_samples as u8,
            (self.payload_byte_count >> 8) as u8,
            self.payload_byte_count as u8,
            (self.datagram_byte_count >> 8) as u8,
            self.datagram_byte_count as u8
        ];
        assert(output@ =~= header_wire_bytes(self));
        Ok(output)
    }

    pub fn validate_structural(self) -> (res: Result<(), StemError>)
        ensures
            res == structural_check(self),
    {
        if !positive_safe(self.topology_generation) || !positive_safe(self.binding_generation) || self.config_ref == 0
            || !positive_safe(self.config_generation) || self.source_map_version == 0 || self.key_epoch == 0
            || self.source_ref == 0 || self.source_symbol_count == 0 || !safe(self.epoch_number)
            || !safe(self.remote_pts) || !safe(self.group_sequence)
            || !(1 <= self.frame_samples && self.frame_samples <= 4_096) || self.payload_byte_count == 0
            || self.payload_byte_count as usize > SST1_MAX_PAYLOAD_BYTES
            || (self.datagram_byte_count as usize) < SST1_MIN_DATAGRAM_BYTES
            || self.datagram_byte_count as usize > 1_500 {
            return Err(StemError::new(StemErrorCode::InvalidHeader, "headerFields"));
        }
        let expected = SST1_HEADER_BYTES + self.payload_byte_count as usize + SST1_AEAD_TAG_BYTES;
        if expected != self.datagram_byte_count as usize {
            return Err(StemError::new(StemErrorCode::DatagramSizeMismatch, "datagramByteCount"));
        }
        Ok(())
    }
}


proof fn lemma_be16_roundtrip(v: u16)
    ensures
        be16(u16_be(v)) == v,
{
    assert((((((v >> 8u16) as u8) as u16) << 8u16) | ((v as u8) as u16)) == v) by (bit_vector);
}

proof fn lemma_be32_roundtrip(v: u32)
    ensures
        be32(u32_be(v)) == v,
{
    assert((((((v >> 24u32) as u8) as u32) << 24u32) | ((((v >> 16u32) as u8) as u32) << 16u32) | ((((v >> 8u32) as u8) as u32) << 8u32) | ((v as u8) as u32)) == v) by (bit_vector);
}

proof fn lemma_be64_roundtrip(v: u64)
    ensures
        be64(u64_be(v)) == v,
{
    assert((((((v >> 56u64) as u8) as u64) << 56u64) | ((((v >> 48u64) as u8) as u64) << 48u64)
        | ((((v >> 40u64) as u8) as u64) << 40u64) | ((((v >> 32u64) as u8) as u64) << 32u64)
        | ((((v >> 24u64) as u8) as u64) << 24u64) | ((((v >> 16u64) as u8) as u64) << 16u64)
        | ((((v >> 8u64) as u8) as u64) << 8u64) | ((v as u8) as u64)) == v) by (bit_vector);
}

proof fn lemma_be16_bytes(b: Seq<u8>)
    requires
        b.len() == 2,
    ensures
        u16_be(be16(b)) =~= b,
{
    let (x0, x1) = (b[0], b[1]);
    assert((((((x0 as u16) << 8u16) | (x1 as u16)) >> 8u16) as u8) == x0
        && (((((x0 as u16) << 8u16) | (x1 as u16))) as u8) == x1) by (bit_vector);
}

proof fn lemma_be32_bytes(b: Seq<u8>)
    requires
        b.len() == 4,
    ensures
        u32_be(be32(b)) =~= b,
{
    let (x0, x1, x2, x3) = (b[0], b[1], b[2], b[3]);
    let v = be32(b);
    assert(v == ((x0 as u32) << 24u32) | ((x1 as u32) << 16u32) | ((x2 as u32) << 8u32) | (x3 as u32));
    assert(v == ((x0 as u32) << 24u32) | ((x1 as u32) << 16u32) | ((x2 as u32) << 8u32) | (x3 as u32) ==>
        (v >> 24u32) as u8 == x0 && (v >> 16u32) as u8 == x1 && (v >> 8u32) as u8 == x2 && v as u8 == x3) by (bit_vector);
}

proof fn lemma_be64_bytes(b: Seq<u8>)
    requires
        b.len() == 8,
    ensures
        u64_be(be64(b)) =~= b,
{
    let (x0, x1, x2, x3, x4, x5, x6, x7) = (b[0], b[1], b[2], b[3], b[4], b[5], b[6], b[7]);
    let v = be64(b);
    assert(v == ((x0 as u64) << 56u64) | ((x1 as u64) << 48u64) | ((x2 as u64) << 40u64) | ((x3 as u64) << 32u64)
        | ((x4 as u64) << 24u64) | ((x5 as u64) << 16u64) | ((x6 as u64) << 8u64) | (x7 as u64));
    assert(v == ((x0 as u64) << 56u64) | ((x1 as u64) << 48u64) | ((x2 as u64) << 40u64) | ((x3 as u64) << 32u64)
        | ((x4 as u64) << 24u64) | ((x5 as u64) << 16u64) | ((x6 as u64) << 8u64) | (x7 as u64) ==>
        (v >> 56u64) as u8 == x0 && (v >> 48u64) as u8 == x1 && (v >> 40u64) as u8 == x2 && (v >> 32u64) as u8 == x3
        && (v >> 24u64) as u8 == x4 && (v >> 16u64) as u8 == x5 && (v >> 8u64) as u8 == x6 && v as u8 == x7) by (bit_vector);
}

#[verifier::spinoff_prover]
#[verifier::rlimit(60)]
proof fn lemma_header_wire_fields(h: StemDatagramHeader)
    ensures
        ({
            let s = header_wire_bytes(h);
            &&& s.len() == 84
            &&& s.take(4) == sst1_magic()
            &&& s[4] == 1 && s[5] == symbol_kind_code(h.symbol_kind) && s[6] == encoding_code(h.encoding) && s[7] == 0
            &&& s.subrange(8, 16) == u64_be(h.topology_generation)
            &&& s.subrange(16, 24) == u64_be(h.binding_generation)
            &&& s.subrange(24, 28) == u32_be(h.config_ref)
            &&& s.subrange(28, 36) == u64_be(h.config_generation)
            &&& s.subrange(36, 40) == u32_be(h.source_map_version)
            &&& s.subrange(40, 44) == u32_be(h.key_epoch)
            &&& s.subrange(44, 46) == u16_be(h.source_ref)
            &&& s.subrange(46, 48) == u16_be(h.symbol_index)
            &&& s.subrange(48, 50) == u16_be(h.source_symbol_count)
            &&& s.subrange(50, 52) == u16_be(h.repair_symbol_count)
            &&& s.subrange(52, 60) == u64_be(h.epoch_number)
            &&& s.subrange(60, 68) == u64_be(h.remote_pts)
            &&& s.subrange(68, 76) == u64_be(h.group_sequence)
            &&& s.subrange(76, 80) == u32_be(h.frame_samples)
            &&& s.subrange(80, 82) == u16_be(h.payload_byte_count)
            &&& s.subrange(82, 84) == u16_be(h.datagram_byte_count)
        }),
{
    let s = header_wire_bytes(h);
    assert(s.len() == 84);
    assert(s.take(4) =~= sst1_magic());
    assert(s.subrange(8, 16) =~= u64_be(h.topology_generation));
    assert(s.subrange(16, 24) =~= u64_be(h.binding_generation));
    assert(s.subrange(24, 28) =~= u32_be(h.config_ref));
    assert(s.subrange(28, 36) =~= u64_be(h.config_generation));
    assert(s.subrange(36, 40) =~= u32_be(h.source_map_version));
    assert(s.subrange(40, 44) =~= u32_be(h.key_epoch));
    assert(s.subrange(44, 46) =~= u16_be(h.source_ref));
    assert(s.subrange(46, 48) =~= u16_be(h.symbol_index));
    assert(s.subrange(48, 50) =~= u16_be(h.source_symbol_count));
    assert(s.subrange(50, 52) =~= u16_be(h.repair_symbol_count));
    assert(s.subrange(52, 60) =~= u64_be(h.epoch_number));
    assert(s.subrange(60, 68) =~= u64_be(h.remote_pts));
    assert(s.subrange(68, 76) =~= u64_be(h.group_sequence));
    assert(s.subrange(76, 80) =~= u32_be(h.frame_samples));
    assert(s.subrange(80, 82) =~= u16_be(h.payload_byte_count));
    assert(s.subrange(82, 84) =~= u16_be(h.datagram_byte_count));
}

/// Encoding then decoding a structurally valid header gives the header back.
pub proof fn header_encode_decode_roundtrip(h: StemDatagramHeader)
    requires
        structural_check(h) is Ok,
    ensures
        spec_decode(header_wire_bytes(h)) == Ok::<StemDatagramHeader, StemError>(h),
{
    let s = header_wire_bytes(h);
    lemma_header_wire_fields(h);
    lemma_be64_roundtrip(h.topology_generation);
    lemma_be64_roundtrip(h.binding_generation);
    lemma_be32_roundtrip(h.config_ref);
    lemma_be64_roundtrip(h.config_generation);
    lemma_be32_roundtrip(h.source_map_version);
    lemma_be32_roundtrip(h.key_epoch);
    lemma_be16_roundtrip(h.source_ref);
    lemma_be16_roundtrip(h.symbol_index);
    lemma_be16_roundtrip(h.source_symbol_count);
    lemma_be16_roundtrip(h.repair_symbol_count);
    lemma_be64_roundtrip(h.epoch_number);
    lemma_be64_roundtrip(h.remote_pts);
    lemma_be64_roundtrip(h.group_sequence);
    lemma_be32_roundtrip(h.frame_samples);
    lemma_be16_roundtrip(h.payload_byte_count);
    lemma_be16_roundtrip(h.datagram_byte_count);
    assert(symbol_kind_from_code(s[5]) == Some(h.symbol_kind));
    assert(encoding_from_code(s[6]) == Some(h.encoding));
    assert(header_from_bytes(s, h.symbol_kind, h.encoding) == h);
}

/// A header that decodes re-encodes to exactly the 84 bytes it was read from.
pub proof fn header_decode_encode_roundtrip(s: Seq<u8>)
    requires
        spec_decode(s) is Ok,
    ensures
        header_wire_bytes(spec_decode(s)->Ok_0) == s.take(84),
{
    let h = spec_decode(s)->Ok_0;
    lemma_be64_bytes(s.subrange(8, 16));
    lemma_be64_bytes(s.subrange(16, 24));
    lemma_be32_bytes(s.subrange(24, 28));
    lemma_be64_bytes(s.subrange(28, 36));
    lemma_be32_bytes(s.subrange(36, 40));
    lemma_be32_bytes(s.subrange(40, 44));
    lemma_be16_bytes(s.subrange(44, 46));
    lemma_be16_bytes(s.subrange(46, 48));
    lemma_be16_bytes(s.subrange(48, 50));
    lemma_be16_bytes(s.subrange(50, 52));
    lemma_be64_bytes(s.subrange(52, 60));
    lemma_be64_bytes(s.subrange(60, 68));
    lemma_be64_bytes(s.subrange(68, 76));
    lemma_be32_bytes(s.subrange(76, 80));
    lemma_be16_bytes(s.subrange(80, 82));
    lemma_be16_bytes(s.subrange(82, 84));
    assert(s.take(4) =~= sst1_magic());
    assert(header_wire_bytes(h) =~= s.take(84));
}


/// The FEC geometry of a header against the config.
pub open spec fn fec_binding_check(h: StemDatagramHeader, p: StemConfigParts) -> Result<(), StemError> {
    if h.source_symbol_count != spec_source_symbols(p) || h.repair_symbol_count != spec_repair_symbols(p) {
        Err(stem_error(StemErrorCode::FecPolicyMismatch, "fecPolicy.symbols"))
    } else if p.fec_policy.strategy == FecStrategy::NoFec {
        if h.symbol_kind != SymbolKind::Source || h.symbol_index != 0 || h.source_symbol_count != 1
            || h.repair_symbol_count != 0 {
            Err(stem_error(StemErrorCode::FecPolicyMismatch, "fecPolicy.none"))
        } else {
            Ok(())
        }
    } else if h.symbol_kind == SymbolKind::Source {
        if h.symbol_index >= h.source_symbol_count {
            Err(stem_error(StemErrorCode::SourceSymbolOutOfRange, "symbolIndex"))
        } else {
            Ok(())
        }
    } else if h.source_symbol_count + h.repair_symbol_count > u16::MAX {
        Err(stem_error(StemErrorCode::ArithmeticOverflow, "fecPolicy.symbols"))
    } else if h.symbol_index < h.source_symbol_count || h.symbol_index >= h.source_symbol_count
        + h.repair_symbol_count {
        Err(stem_error(StemErrorCode::RepairSymbolOutOfRange, "symbolIndex"))
    } else {
        Ok(())
    }
}

/// The binding of a header to the config: generations, source, timeline,
/// geometry, encoding, FEC and carrier MTU, in the order they are checked.
pub open spec fn binding_check(h: StemDatagramHeader, p: StemConfigParts) -> Result<(), StemError> {
    if h.topology_generation != p.topology_generation {
        Err(stem_error(StemErrorCode::TopologyGenerationMismatch, "topologyGeneration"))
    } else if h.binding_generation != p.binding_generation {
        Err(stem_error(StemErrorCode::BindingGenerationMismatch, "bindingGeneration"))
    } else if h.config_ref != p.config_ref {
        Err(stem_error(StemErrorCode::ConfigRefMismatch, "configRef"))
    } else if h.config_generation != p.config_generation {
        Err(stem_error(StemErrorCode::ConfigGenerationMismatch, "configGeneration"))
    } else if h.source_map_version != p.source_map.version {
        Err(stem_error(StemErrorCode::SourceMapVersionMismatch, "sourceMapVersion"))
    } else if h.key_epoch != p.key_epoch {
        Err(stem_error(StemErrorCode::KeyEpochMismatch, "keyEpoch"))
    } else if spec_source_for_ref(p.source_map.sources@, h.source_ref) is None {
        Err(stem_error(StemErrorCode::UnknownSourceRef, "sourceRef"))
    } else {
        let source = spec_source_for_ref(p.source_map.sources@, h.source_ref)->0;
        if !source_admitted(p, source.source_id@) {
            Err(stem_error(StemErrorCode::SourceNotAuthorized, "prioritySourceIds"))
        } else if h.epoch_number < p.effective_epoch {
            Err(stem_error(StemErrorCode::ConfigNotEffective, "epochNumber"))
        } else if h.frame_samples != p.source_map.frame_samples {
            Err(stem_error(StemErrorCode::FrameGeometryMismatch, "frameSamples"))
        } else if spec_encoding_for_source(p, source.source_id@) != Some(h.encoding) {
            Err(stem_error(StemErrorCode::EncodingMismatch, "encoding"))
        } else if fec_binding_check(h, p) is Err {
            fec_binding_check(h, p)
        } else if h.datagram_byte_count > p.carrier.max_datagram_bytes {
            Err(stem_error(StemErrorCode::CarrierMtuExceeded, "maxDatagramBytes"))
        } else {
            Ok(())
        }
    }
}

impl StemDatagramHeader {
    pub fn validate_config(self, config: &AuthoritativeStemConfig) -> (res: Result<(), StemError>)
        ensures
            res == binding_check(self, config@),
    {
        if self.topology_generation != config.topology_generation() {
            return Err(StemError::new(StemErrorCode::TopologyGenerationMismatch, "topologyGeneration"));
        }
        if self.binding_generation != config.binding_generation() {
            return Err(StemError::new(StemErrorCode::BindingGenerationMismatch, "bindingGeneration"));
        }
        if self.config_ref != config.config_ref() {
            return Err(StemError::new(StemErrorCode::ConfigRefMismatch, "configRef"));
        }
        if self.config_generation != config.config_generation() {
            return Err(StemError::new(StemErrorCode::ConfigGenerationMismatch, "configGeneration"));
        }
        if self.source_map_version as u64 != config.source_map_version() {
            return Err(StemError::new(StemErrorCode::SourceMapVersionMismatch, "sourceMapVersion"));
        }
        if self.key_epoch != config.key_epoch() {
            return Err(StemError::new(StemErrorCode::KeyEpochMismatch, "keyEpoch"));
        }
        let source = match config.source_for_ref(self.source_ref) {
            Some(source) => source,
            None => return Err(StemError::new(StemErrorCode::UnknownSourceRef, "sourceRef")),
        };
        if !config.source_is_admitted(source.source_id()) {
            return Err(StemError::new(StemErrorCode::SourceNotAuthorized, "prioritySourceIds"));
        }
        if self.epoch_number < config.effective_epoch() {
            return Err(StemError::new(StemErrorCode::ConfigNotEffective, "epochNumber"));
        }
        if self.frame_samples != config.frame_samples() {
            return Err(StemError::new(StemErrorCode::FrameGeometryMismatch, "frameSamples"));
        }
        match config.encoding_for_source(source.source_id()) {
            Some(encoding) => {
                if encoding != self.encoding {
                    return Err(StemError::new(StemErrorCode::EncodingMismatch, "encoding"));
                }
            },
            None => return Err(StemError::new(StemErrorCode::EncodingMismatch, "encoding")),
        }
        match self.validate_fec(config) {
            Err(e) => return Err(e),
            Ok(()) => {},
        }
        if self.datagram_byte_count > config.carrier().max_datagram_bytes() {
            return Err(StemError::new(StemErrorCode::CarrierMtuExceeded, "maxDatagramBytes"));
        }
        Ok(())
    }

    pub fn validate_fec(self, config: &AuthoritativeStemConfig) -> (res: Result<(), StemError>)
        ensures
            res == fec_binding_check(self, config@),
    {
        if self.source_symbol_count != config.source_symbols() || self.repair_symbol_count != config.repair_symbols() {
            return Err(StemError::new(StemErrorCode::FecPolicyMismatch, "fecPolicy.symbols"));
        }
        match config.fec_strategy() {
            FecStrategy::NoFec => {
                if self.symbol_kind != SymbolKind::Source || self.symbol_index != 0 || self.source_symbol_count != 1
                    || self.repair_symbol_count != 0 {
                    return Err(StemError::new(StemErrorCode::FecPolicyMismatch, "fecPolicy.none"));
                }
            },
            _ => match self.symbol_kind {
                SymbolKind::Source => {
                    if self.symbol_index >= self.source_symbol_count {
                        return Err(StemError::new(StemErrorCode::SourceSymbolOutOfRange, "symbolIndex"));
                    }
                },
                SymbolKind::Repair => {
                    let end = match self.source_symbol_count.checked_add(self.repair_symbol_count) {
                        Some(end) => end,
                        None => return Err(StemError::new(StemErrorCode::ArithmeticOverflow, "fecPolicy.symbols")),
                    };
                    if self.symbol_index < self.source_symbol_count || self.symbol_index >= end {
                        return Err(StemError::new(StemErrorCode::RepairSymbolOutOfRange, "symbolIndex"));
                    }
                },
            },
        }
        Ok(())
    }
}

#[derive(Clone, Copy, Debug, PartialEq, Eq, Structural)]
pub enum AuthorizationOperation {
    Publish,
    Subscribe,
}

#[derive(Clone, Copy, Debug, PartialEq, Eq, Structural)]
pub enum AuthorizationMediaClass {
    Program,
    Talkback,
}

/// A route authorization: who may publish or subscribe which sources.
#[derive(Clone, Debug, PartialEq, Eq)]
pub struct StemAuthorization {
    identity: CompositeIdentity,
    topology_generation: u64,
    binding_generation: u64,
    operation: AuthorizationOperation,
    media_class: AuthorizationMediaClass,
    allowed_source_ids: Vec<String>,
}

/// The contents of a route authorization.
pub struct AuthorizationView {
    pub identity: CompositeIdentity,
    pub topology_generation: u64,
    pub binding_generation: u64,
    pub operation: AuthorizationOperation,
    pub media_class: AuthorizationMediaClass,
    pub allowed_source_ids: Seq<String>,
}

impl View for StemAuthorization {
    type V = AuthorizationView;

    closed spec fn view(&self) -> AuthorizationView {
        AuthorizationView {
            identity: self.identity,
            topology_generation: self.topology_generation,
            binding_generation: self.binding_generation,
            operation: self.operation,
            media_class: self.media_class,
            allowed_source_ids: self.allowed_source_ids@,
        }
    }
}

/// The authorization checks for `source_id` under `operation`, in order.
pub open spec fn authorization_check(
    a: AuthorizationView,
    p: StemConfigParts,
    source_id: Seq<char>,
    operation: AuthorizationOperation,
) -> Result<(), StemError> {
    let ids = a.allowed_source_ids;
    if !same_identity(a.identity, p.identity) {
        Err(stem_error(StemErrorCode::RouteIdentityMismatch, "identity"))
    } else if a.operation != operation {
        Err(stem_error(StemErrorCode::OperationNotAuthorized, "operation"))
    } else if a.media_class != AuthorizationMediaClass::Program {
        Err(stem_error(StemErrorCode::MediaClassNotAuthorized, "mediaClass"))
    } else if a.topology_generation != p.topology_generation {
        Err(stem_error(StemErrorCode::TopologyAuthorizationMismatch, "topologyGeneration"))
    } else if a.binding_generation != p.binding_generation {
        Err(stem_error(StemErrorCode::BindingAuthorizationMismatch, "bindingGeneration"))
    } else if ids.len() == 0 || ids.len() > 128
        || (exists|i: int| 0 <= i < ids.len() && !valid_id_chars(#[trigger] ids[i]@)) || !strictly_sorted(ids) {
        Err(stem_error(StemErrorCode::NonCanonicalSourceScope, "allowedSourceIds"))
    } else if exists|i: int| 0 <= i < ids.len() && !has_source_id(p.source_map.sources@, #[trigger] ids[i]@) {
        Err(stem_error(StemErrorCode::SourceNotAuthorized, "allowedSourceIds"))
    } else if !contains_text(ids, source_id) {
        Err(stem_error(StemErrorCode::SourceNotAuthorized, "sourceId"))
    } else {
        Ok(())
    }
}

fn all_valid_ids(ids: &Vec<String>) -> (res: bool)
    ensures
        res == !(exists|i: int| 0 <= i < ids@.len() && !valid_id_chars(#[trigger] ids@[i]@)),
{
    let mut i: usize = 0;
    while i < ids.len()
        invariant
            0 <= i <= ids@.len(),
            forall|j: int| 0 <= j < i ==> valid_id_chars(#[trigger] ids@[j]@),
        decreases ids@.len() - i,
    {
        if !valid_id(ids[i].as_str()) {
            return false;
        }
        i = i + 1;
    }
    true
}

fn all_known_sources(ids: &Vec<String>, config: &AuthoritativeStemConfig) -> (res: bool)
    ensures
        res == !(exists|i: int| 0 <= i < ids@.len() && !has_source_id(config@.source_map.sources@, #[trigger] ids@[i]@)),
{
    let mut i: usize = 0;
    while i < ids.len()
        invariant
            0 <= i <= ids@.len(),
            forall|j: int| 0 <= j < i ==> has_source_id(config@.source_map.sources@, #[trigger] ids@[j]@),
        decreases ids@.len() - i,
    {
        match config.source_for_id(ids[i].as_str()) {
            None => {
                proof {
                    let ss = config@.source_map.sources@;
                    if has_source_id(ss, ids@[i as int]@) {
                        let w = choose|k: int| 0 <= k < ss.len() && #[trigger] ss[k].source_id@ == ids@[i as int]@;
                        lemma_first_id_exists(ss, ids@[i as int]@, w);
                    }
                }
                return false;
            },
            Some(s) => {
                proof {
                    let ss = config@.source_map.sources@;
                    let f = choose|k: int| crate::config::first_id_index(ss, ids@[i as int]@, k);
                    assert(ss[f].source_id@ == ids@[i as int]@);
                }
            },
        }
        i = i + 1;
    }
    true
}

/// Some index is first among those that carry `id`.
proof fn lemma_first_id_exists(ss: Seq<SourceDefinition>, id: Seq<char>, w: int)
    requires
        0 <= w < ss.len(),
        ss[w].source_id@ == id,
    ensures
        exists|i: int| crate::config::first_id_index(ss, id, i),
    decreases w,
{
    if exists|k: int| 0 <= k < w && #[trigger] ss[k].source_id@ == id {
        let k = choose|k: int| 0 <= k < w && #[trigger] ss[k].source_id@ == id;
        lemma_first_id_exists(ss, id, k);
    } else {
        assert(crate::config::first_id_index(ss, id, w));
    }
}

impl StemAuthorization {
    pub fn new(
        identity: CompositeIdentity,
        topology_generation: u64,
        binding_generation: u64,
        operation: AuthorizationOperation,
        media_class: AuthorizationMediaClass,
        allowed_source_ids: Vec<String>,
    ) -> (res: Self)
        ensures
            res@ == (AuthorizationView {
                identity,
                topology_generation,
                binding_generation,
                operation,
                media_class,
                allowed_source_ids: allowed_source_ids@,
            }),
    {
        StemAuthorization { identity, topology_generation, binding_generation, operation, media_class, allowed_source_ids }
    }

    pub fn validate(
        &self,
        config: &AuthoritativeStemConfig,
        source_id: &str,
        expected_operation: AuthorizationOperation,
    ) -> (res: Result<(), StemError>)
        ensures
            res == authorization_check(self@, config@, source_id@, expected_operation),
    {
        if !self.identity.same_as(config.identity()) {
            return Err(StemError::new(StemErrorCode::RouteIdentityMismatch, "identity"));
        }
        if self.operation != expected_operation {
            return Err(StemError::new(StemErrorCode::OperationNotAuthorized, "operation"));
        }
        if self.media_class != AuthorizationMediaClass::Program {
            return Err(StemError::new(StemErrorCode::MediaClassNotAuthorized, "mediaClass"));
        }
        if self.topology_generation != config.topology_generation() {
            return Err(StemError::new(StemErrorCode::TopologyAuthorizationMismatch, "topologyGeneration"));
        }
        if self.binding_generation != config.binding_generation() {
            return Err(StemError::new(StemErrorCode::BindingAuthorizationMismatch, "bindingGeneration"));
        }
        let ids = &self.allowed_source_ids;
        if ids.len() == 0 || ids.len() > 128 || !all_valid_ids(ids) || !is_strictly_sorted(ids) {
            return Err(StemError::new(StemErrorCode::NonCanonicalSourceScope, "allowedSourceIds"));
        }
        if !all_known_sources(ids, config) {
            return Err(StemError::new(StemErrorCode::SourceNotAuthorized, "allowedSourceIds"));
        }
        if !contains_str(ids, source_id) {
            return Err(StemError::new(StemErrorCode::SourceNotAuthorized, "sourceId"));
        }
        Ok(())
    }
}


/// The opener of an AEAD-protected symbol refused it.
#[derive(Clone, Copy, Debug, PartialEq, Eq)]
pub struct AeadOpenError;

impl AeadOpenError {
    /// The display text of the error.
    pub fn to_string(&self) -> (res: String)
        ensures
            res@ == "AEAD authentication failed"@,
    {
        String::from_str("AEAD authentication failed")
    }
}

/// Production adapters implement this with their session/key-epoch AEAD.
/// There is intentionally no permissive opener in this library.
pub trait StemAeadOpener {
    /// Authenticate and decrypt one bounded symbol payload.
    fn open(
        &self,
        key_epoch: u32,
        associated_data: &[u8; SST1_HEADER_BYTES],
        ciphertext: &[u8],
        tag: &[u8; SST1_AEAD_TAG_BYTES],
    ) -> Result<Vec<u8>, AeadOpenError>;
}

/// The abstract content of an authenticated symbol.
pub struct SymbolView {
    pub header: StemDatagramHeader,
    pub source_id: Seq<char>,
    pub required: bool,
    pub channel_count: u16,
    pub payload: Seq<u8>,
}

/// One `SST1` symbol whose payload an AEAD opener has authenticated. Only
/// `open_authenticated_datagram_for` makes one.
#[derive(Clone, Debug, PartialEq, Eq)]
pub struct AuthenticatedStemSymbol {
    header: StemDatagramHeader,
    source_id: String,
    required: bool,
    channel_count: u16,
    payload: Vec<u8>,
}

impl View for AuthenticatedStemSymbol {
    type V = SymbolView;

    closed spec fn view(&self) -> SymbolView {
        SymbolView {
            header: self.header,
            source_id: self.source_id@,
            required: self.required,
            channel_count: self.channel_count,
            payload: self.payload@,
        }
    }
}

impl AuthenticatedStemSymbol {
    pub fn header(&self) -> (res: &StemDatagramHeader)
        ensures
            *res == self@.header,
    {
        &self.header
    }

    pub fn source_id(&self) -> (res: &str)
        ensures
            res@ == self@.source_id,
    {
        self.source_id.as_str()
    }

    pub fn required(&self) -> (res: bool)
        ensures
            res == self@.required,
    {
        self.required
    }

    pub fn channel_count(&self) -> (res: u16)
        ensures
            res == self@.channel_count,
    {
        self.channel_count
    }

    pub fn payload(&self) -> (res: &[u8])
        ensures
            res@ == self@.payload,
    {
        self.payload.as_slice()
    }
}

/// Everything that must hold of a datagram before its payload reaches the
/// opener: a valid header of the datagram's exact length, bound to the config
/// and authorized; the header and the source it names.
pub open spec fn datagram_admission(
    datagram: Seq<u8>,
    p: StemConfigParts,
    a: AuthorizationView,
    operation: AuthorizationOperation,
) -> Result<(StemDatagramHeader, SourceDefinition), StemError> {
    match spec_decode(datagram) {
        Err(e) => Err(e),
        Ok(h) => if datagram.len() != h.datagram_byte_count {
            Err(stem_error(StemErrorCode::DatagramSizeMismatch, "datagramByteCount"))
        } else {
            match binding_check(h, p) {
                Err(e) => Err(e),
                Ok(()) => {
                    let source = spec_source_for_ref(p.source_map.sources@, h.source_ref)->0;
                    match authorization_check(a, p, source.source_id@, operation) {
                        Err(e) => Err(e),
                        Ok(()) => Ok((h, source)),
                    }
                },
            }
        },
    }
}

/// The symbol that an opened payload makes, or the authentication error.
pub open spec fn opened_symbol(
    h: StemDatagramHeader,
    source: SourceDefinition,
    opened: Result<Seq<u8>, AeadOpenError>,
) -> Result<SymbolView, StemError> {
    match opened {
        Err(_) => Err(stem_error(StemErrorCode::AuthenticationFailed, "aeadTag")),
        Ok(payload) => if payload.len() != h.payload_byte_count {
            Err(stem_error(StemErrorCode::AuthenticationFailed, "plaintextLength"))
        } else {
            Ok(SymbolView {
                header: h,
                source_id: source.source_id@,
                required: source.required,
                channel_count: source.channel_layout.channel_count,
                payload,
            })
        },
    }
}

/// The abstract value of an open result.
pub open spec fn symbol_result_view(res: Result<AuthenticatedStemSymbol, StemError>) -> Result<SymbolView, StemError> {
    match res {
        Ok(symbol) => Ok(symbol@),
        Err(e) => Err(e),
    }
}

pub open spec fn opened_view(opened: Result<Vec<u8>, AeadOpenError>) -> Result<Seq<u8>, AeadOpenError> {
    match opened {
        Ok(payload) => Ok(payload@),
        Err(e) => Err(e),
    }
}

/// The symbol that an opener's result makes for an admitted header and its
/// source: an opener error fails authentication on `aeadTag`, a payload of
/// another length than the header declares fails on `plaintextLength`, and
/// otherwise the payload becomes the symbol's.
pub fn symbol_from_opened(
    header: StemDatagramHeader,
    source: &SourceDefinition,
    opened: Result<Vec<u8>, AeadOpenError>,
) -> (res: Result<AuthenticatedStemSymbol, StemError>)
    ensures
        symbol_result_view(res) == opened_symbol(header, *source, opened_view(opened)),
{
    let payload = match opened {
        Ok(payload) => payload,
        Err(_) => return Err(StemError::new(StemErrorCode::AuthenticationFailed, "aeadTag")),
    };
    if payload.len() != header.payload_byte_count as usize {
        return Err(StemError::new(StemErrorCode::AuthenticationFailed, "plaintextLength"));
    }
    let symbol = AuthenticatedStemSymbol {
        header,
        source_id: source.source_id.clone(),
        required: source.required,
        channel_count: source.channel_layout.channel_count,
        payload,
    };
    Ok(symbol)
}

/// What opening a datagram gives with a given opener: the admission error;
/// or, for an admitted header `h`, the symbol or authentication error that
/// follows from one outcome of the opener called with `h`'s key epoch, the 84
/// header bytes as associated data, the `payload_byte_count` payload bytes as
/// ciphertext and the 16 bytes after them as the tag.
pub open spec fn open_outcome<O: StemAeadOpener>(
    opener: &O,
    datagram: Seq<u8>,
    p: StemConfigParts,
    a: AuthorizationView,
    operation: AuthorizationOperation,
    res: Result<SymbolView, StemError>,
) -> bool {
    match datagram_admission(datagram, p, a, operation) {
        Err(e) => res == Err::<SymbolView, StemError>(e),
        Ok((h, source)) => exists|
            associated_data: [u8; SST1_HEADER_BYTES],
            ciphertext: &[u8],
            tag: [u8; SST1_AEAD_TAG_BYTES],
            opened: Result<Vec<u8>, AeadOpenError>,
        |
            #![trigger call_ensures(O::open, (opener, h.key_epoch, &associated_data, ciphertext, &tag), opened)]
            {
                &&& associated_data@ == datagram.subrange(0, SST1_HEADER_BYTES as int)
                &&& ciphertext@ == datagram.subrange(
                    SST1_HEADER_BYTES as int,
                    SST1_HEADER_BYTES + h.payload_byte_count,
                )
                &&& tag@ == datagram.subrange(
                    SST1_HEADER_BYTES + h.payload_byte_count,
                    SST1_HEADER_BYTES + h.payload_byte_count + SST1_AEAD_TAG_BYTES,
                )
                &&& call_ensures(O::open, (opener, h.key_epoch, &associated_data, ciphertext, &tag), opened)
                &&& res == opened_symbol(h, source, opened_view(opened))
            },
    }
}

/// Parse, bind, authorize and authenticate one `SST1` symbol as a publish:
/// `open_authenticated_datagram_for` with the publish operation.
pub fn open_authenticated_datagram<O: StemAeadOpener>(
    datagram: &[u8],
    config: &AuthoritativeStemConfig,
    authorization: &StemAuthorization,
    opener: &O,
) -> (res: Result<AuthenticatedStemSymbol, StemError>)
    ensures
        open_outcome(opener, datagram@, config@, authorization@, AuthorizationOperation::Publish, symbol_result_view(res)),
{
    open_authenticated_datagram_for(datagram, config, authorization, AuthorizationOperation::Publish, opener)
}

/// Parse, bind, authorize and authenticate one `SST1` symbol for an explicit
/// publish or subscribe boundary. The opener receives the key epoch, the 84
/// header bytes as associated data, the payload bytes and the 16 tag bytes;
/// whatever it returns, no symbol comes back unless it opened a payload of
/// the declared length.
pub fn open_authenticated_datagram_for<O: StemAeadOpener>(
    datagram: &[u8],
    config: &AuthoritativeStemConfig,
    authorization: &StemAuthorization,
    expected_operation: AuthorizationOperation,
    opener: &O,
) -> (res: Result<AuthenticatedStemSymbol, StemError>)
    ensures
        open_outcome(opener, datagram@, config@, authorization@, expected_operation, symbol_result_view(res)),
{
    let header = match StemDatagramHeader::decode(datagram) {
        Ok(header) => header,
        Err(e) => return Err(e),
    };
    if datagram.len() != header.datagram_byte_count as usize {
        return Err(StemError::new(StemErrorCode::DatagramSizeMismatch, "datagramByteCount"));
    }
    match header.validate_config(config) {
        Err(e) => return Err(e),
        Ok(()) => {},
    }
    let source = match config.source_for_ref(header.source_ref) {
        Some(source) => source,
        None => return Err(StemError::new(StemErrorCode::UnknownSourceRef, "sourceRef")),
    };
    match authorization.validate(config, source.source_id(), expected_operation) {
        Err(e) => return Err(e),
        Ok(()) => {},
    }
    let payload_end = SST1_HEADER_BYTES + header.payload_byte_count as usize;
    assert(payload_end + SST1_AEAD_TAG_BYTES == datagram@.len());
    let associated_data: [u8; SST1_HEADER_BYTES] = [
            datagram[0],
            datagram[1],
            datagram[2],
            datagram[3],
            datagram[4],
            datagram[5],
            datagram[6],
            datagram[7],
            datagram[8],
            datagram[9],
            datagram[10],
            datagram[11],
            datagram[12],
            datagram[13],
            datagram[14],
            datagram[15],
            datagram[16],
            datagram[17],
            datagram[18],
            datagram[19],
            datagram[20],
            datagram[21],
            datagram[22],
            datagram[23],
            datagram[24],
            datagram[25],
            datagram[26],
            datagram[27],
            datagram[28],
            datagram[29],
            datagram[30],
            datagram[31],
            datagram[32],
            datagram[33],
            datagram[34],
            datagram[35],
            datagram[36],
            datagram[37],
            datagram[38],
            datagram[39],
            datagram[40],
            datagram[41],
            datagram[42],
            datagram[43],
            datagram[44],
            datagram[45],
            datagram[46],
            datagram[47],
            datagram[48],
            datagram[49],
            datagram[50],
            datagram[51],
            datagram[52],
            datagram[53],
            datagram[54],
            datagram[55],
            datagram[56],
            datagram[57],
            datagram[58],
            datagram[59],
            datagram[60],
            datagram[61],
            datagram[62],
            datagram[63],
            datagram[64],
            datagram[65],
            datagram[66],
            datagram[67],
            datagram[68],
            datagram[69],
            datagram[70],
            datagram[71],
            datagram[72],
            datagram[73],
            datagram[74],
            datagram[75],
            datagram[76],
            datagram[77],
            datagram[78],
            datagram[79],
            datagram[80],
            datagram[81],
            datagram[82],
            datagram[83]
    ];
    let tag: [u8; SST1_AEAD_TAG_BYTES] = [
            datagram[payload_end],
            datagram[payload_end + 1],
            datagram[payload_end + 2],
            datagram[payload_end + 3],
            datagram[payload_end + 4],
            datagram[payload_end + 5],
            datagram[payload_end + 6],
            datagram[payload_end + 7],
            datagram[payload_end + 8],
            datagram[payload_end + 9],
            datagram[payload_end + 10],
            datagram[payload_end + 11],
            datagram[payload_end + 12],
            datagram[payload_end + 13],
            datagram[payload_end + 14],
            datagram[payload_end + 15]
    ];
    let ciphertext = slice_subrange(datagram, SST1_HEADER_BYTES, payload_end);
    // Called through the function value, so that `open_outcome` can name
    // this very call by its `call_ensures`.
    let open_fn = O::open;
    let opened = open_fn(opener, header.key_epoch, &associated_data, ciphertext, &tag);
    let res = symbol_from_opened(header, source, opened);
    assert(associated_data@ =~= datagram@.subrange(0, SST1_HEADER_BYTES as int));
    assert(tag@ =~= datagram@.subrange(payload_end as int, payload_end + SST1_AEAD_TAG_BYTES));
    res
}

/// A FEC strategy adapter could not recover a group.
#[derive(Clone, Copy, Debug, PartialEq, Eq)]
pub struct FecRecoveryError;

impl FecRecoveryError {
    /// The display text of the error.
    pub fn to_string(&self) -> (res: String)
        ensures
            res@ == "stem FEC recovery failed"@,
    {
        String::from_str("stem FEC recovery failed")
    }
}

/// Strategy adapters reconstruct one complete independently decodable source
/// payload from authenticated symbols. The adapter never receives unauthenticated
/// bytes and cannot alter the frozen group identity.
pub trait StemFecRecoverer {
    /// Recover one complete source payload from already-authenticated symbols.
    fn recover(
        &self,
        strategy: FecStrategy,
        source_symbol_count: u16,
        repair_symbol_count: u16,
        symbols: &[AuthenticatedStemSymbol],
    ) -> Result<Vec<u8>, FecRecoveryError>;
}

/// The abstract content of a recovered group.
pub struct GroupView {
    pub header: StemDatagramHeader,
    pub source_id: Seq<char>,
    pub required: bool,
    pub channel_count: u16,
    pub payload: Seq<u8>,
}

/// One source payload recovered from one complete group of authenticated
/// symbols. Only `recover_authenticated_group` makes one.
#[derive(Debug, PartialEq, Eq)]
pub struct RecoveredStemGroup {
    header: StemDatagramHeader,
    source_id: String,
    required: bool,
    channel_count: u16,
    payload: Vec<u8>,
}

/// A recovered payload holds 1 to 16 MiB of bytes.
pub open spec fn payload_sized(g: GroupView) -> bool {
    1 <= g.payload.len() <= 16 * 1024 * 1024
}

impl RecoveredStemGroup {
    #[verifier::type_invariant]
    pub(crate) closed spec fn payload_in_bounds(self) -> bool {
        1 <= self.payload@.len() <= 16 * 1024 * 1024
    }

    /// A group within its type invariant has a payload of 1 to 16 MiB.
    pub(crate) proof fn lemma_payload_sized(self)
        requires
            self.payload_in_bounds(),
        ensures
            payload_sized(self@),
    {
    }
}

impl Clone for RecoveredStemGroup {
    fn clone(&self) -> (res: Self)
        ensures
            res@ == self@,
    {
        proof {
            use_type_invariant(self);
        }
        RecoveredStemGroup {
            header: self.header,
            source_id: self.source_id.clone(),
            required: self.required,
            channel_count: self.channel_count,
            payload: self.payload.clone(),
        }
    }
}

impl View for RecoveredStemGroup {
    type V = GroupView;

    closed spec fn view(&self) -> GroupView {
        GroupView {
            header: self.header,
            source_id: self.source_id@,
            required: self.required,
            channel_count: self.channel_count,
            payload: self.payload@,
        }
    }
}

impl RecoveredStemGroup {
    pub fn header(&self) -> (res: &StemDatagramHeader)
        ensures
            *res == self@.header,
    {
        &self.header
    }

    pub fn source_id(&self) -> (res: &str)
        ensures
            res@ == self@.source_id,
    {
        self.source_id.as_str()
    }

    pub fn required(&self) -> (res: bool)
        ensures
            res == self@.required,
    {
        self.required
    }

    pub fn channel_count(&self) -> (res: u16)
        ensures
            res == self@.channel_count,
    {
        self.channel_count
    }

    pub fn payload(&self) -> (res: &[u8])
        ensures
            res@ == self@.payload,
    {
        self.payload.as_slice()
    }

    /// Exact comparison of two groups.
    pub fn same_as(&self, other: &RecoveredStemGroup) -> (res: bool)
        ensures
            res == (self@ == other@),
    {
        let same = self.header == other.header && self.required == other.required
            && self.channel_count == other.channel_count && str_equal(self.source_id.as_str(), other.source_id.as_str())
            && crate::common::bytes_equal(self.payload.as_slice(), other.payload.as_slice());
        proof {
            if same {
                assert(self@ == other@);
            }
        }
        same
    }

    /// A copy of the payload.
    pub fn payload_copy(&self) -> (res: Vec<u8>)
        ensures
            res@ == self@.payload,
    {
        self.payload.clone()
    }
}

/// Two symbols belong to the same group: same source, epoch, timeline and geometry.
pub open spec fn same_group(first: SymbolView, candidate: SymbolView) -> bool {
    let l = first.header;
    let r = candidate.header;
    &&& first.source_id == candidate.source_id
    &&& first.required == candidate.required
    &&& first.channel_count == candidate.channel_count
    &&& l.topology_generation == r.topology_generation
    &&& l.binding_generation == r.binding_generation
    &&& l.config_ref == r.config_ref
    &&& l.config_generation == r.config_generation
    &&& l.source_map_version == r.source_map_version
    &&& l.key_epoch == r.key_epoch
    &&& l.source_ref == r.source_ref
    &&& l.source_symbol_count == r.source_symbol_count
    &&& l.repair_symbol_count == r.repair_symbol_count
    &&& l.epoch_number == r.epoch_number
    &&& l.remote_pts == r.remote_pts
    &&& l.group_sequence == r.group_sequence
    &&& l.frame_samples == r.frame_samples
    &&& l.encoding == r.encoding
}

/// Member `i` is bound to the config, belongs to the first symbol's group and
/// repeats no earlier symbol index.
pub open spec fn group_member_check(symbols: Seq<SymbolView>, p: StemConfigParts, i: int) -> Result<(), StemError> {
    match binding_check(symbols[i].header, p) {
        Err(e) => Err(e),
        Ok(()) => if !same_group(symbols[0], symbols[i]) || (exists|k: int|
            0 <= k < i && #[trigger] symbols[k].header.symbol_index == symbols[i].header.symbol_index) {
            Err(stem_error(StemErrorCode::FecPolicyMismatch, "symbolGroup"))
        } else {
            Ok(())
        },
    }
}

pub open spec fn group_members_check(symbols: Seq<SymbolView>, p: StemConfigParts, n: int) -> Result<(), StemError>
    decreases n,
{
    if n <= 0 {
        Ok(())
    } else {
        match group_members_check(symbols, p, n - 1) {
            Err(e) => Err(e),
            Ok(()) => group_member_check(symbols, p, n - 1),
        }
    }
}

proof fn lemma_group_members_check_stops(symbols: Seq<SymbolView>, p: StemConfigParts, j: int, m: int)
    requires
        0 <= j < m,
        group_members_check(symbols, p, j) is Ok,
        group_member_check(symbols, p, j) is Err,
    ensures
        group_members_check(symbols, p, m) == group_member_check(symbols, p, j),
    decreases m - j,
{
    if m > j + 1 {
        lemma_group_members_check_stops(symbols, p, j, m - 1);
    }
}

/// The checks of a symbol list before recovery runs.
pub open spec fn group_admission(symbols: Seq<SymbolView>, p: StemConfigParts) -> Result<(), StemError> {
    if symbols.len() == 0 {
        Err(stem_error(StemErrorCode::FecPolicyMismatch, "symbols"))
    } else if binding_check(symbols[0].header, p) is Err {
        binding_check(symbols[0].header, p)
    } else if group_members_check(symbols, p, symbols.len() as int) is Err {
        group_members_check(symbols, p, symbols.len() as int)
    } else if symbols.len() < symbols[0].header.source_symbol_count {
        Err(stem_error(StemErrorCode::FecPolicyMismatch, "sourceSymbolCount"))
    } else if p.fec_policy.strategy == FecStrategy::NoFec && (symbols.len() != 1
        || symbols[0].header.symbol_kind != SymbolKind::Source) {
        Err(stem_error(StemErrorCode::FecPolicyMismatch, "fecPolicy.none"))
    } else {
        Ok(())
    }
}

/// The group that a recovered payload makes, or the reason it is refused.
pub open spec fn recovered_group(first: SymbolView, payload: Seq<u8>) -> Result<GroupView, StemError> {
    if payload.len() == 0 || payload.len() > 16 * 1024 * 1024 {
        Err(stem_error(StemErrorCode::FecPolicyMismatch, "recoveredPayload"))
    } else if first.header.encoding == StemEncoding::PcmS24le && payload.len() != first.header.frame_samples
        * first.channel_count * 3 {
        Err(stem_error(StemErrorCode::FrameGeometryMismatch, "pcmPayloadLength"))
    } else {
        Ok(GroupView {
            header: first.header,
            source_id: first.source_id,
            required: first.required,
            channel_count: first.channel_count,
            payload,
        })
    }
}

pub open spec fn group_result_view(res: Result<RecoveredStemGroup, StemError>) -> Result<GroupView, StemError> {
    match res {
        Ok(group) => Ok(group@),
        Err(e) => Err(e),
    }
}

pub open spec fn symbol_views(symbols: Seq<AuthenticatedStemSymbol>) -> Seq<SymbolView> {
    symbols.map_values(|s: AuthenticatedStemSymbol| s@)
}

fn index_seen(symbols: &[AuthenticatedStemSymbol], i: usize) -> (res: bool)
    requires
        i < symbols@.len(),
    ensures
        res == (exists|k: int| 0 <= k < i && #[trigger] symbols@[k]@.header.symbol_index == symbols@[i as int]@.header.symbol_index),
{
    let mut k: usize = 0;
    while k < i
        invariant
            i < symbols@.len(),
            0 <= k <= i,
            forall|m: int| 0 <= m < k ==> #[trigger] symbols@[m]@.header.symbol_index != symbols@[i as int]@.header.symbol_index,
        decreases i - k,
    {
        if symbols[k].header.symbol_index == symbols[i].header.symbol_index {
            assert(symbols@[k as int]@.header.symbol_index == symbols@[i as int]@.header.symbol_index);
            return true;
        }
        k = k + 1;
    }
    false
}

fn in_same_group(first: &AuthenticatedStemSymbol, candidate: &AuthenticatedStemSymbol) -> (res: bool)
    ensures
        res == same_group(first@, candidate@),
{
    let l = first.header;
    let r = candidate.header;
    str_equal(first.source_id.as_str(), candidate.source_id.as_str()) && first.required == candidate.required
        && first.channel_count == candidate.channel_count && l.topology_generation == r.topology_generation
        && l.binding_generation == r.binding_generation && l.config_ref == r.config_ref
        && l.config_generation == r.config_generation && l.source_map_version == r.source_map_version
        && l.key_epoch == r.key_epoch && l.source_ref == r.source_ref
        && l.source_symbol_count == r.source_symbol_count && l.repair_symbol_count == r.repair_symbol_count
        && l.epoch_number == r.epoch_number && l.remote_pts == r.remote_pts
        && l.group_sequence == r.group_sequence && l.frame_samples == r.frame_samples && l.encoding == r.encoding
}

fn admit_group(symbols: &[AuthenticatedStemSymbol], config: &AuthoritativeStemConfig) -> (res: Result<(), StemError>)
    ensures
        res == group_admission(symbol_views(symbols@), config@),
{
    let ghost views = symbol_views(symbols@);
    assert(forall|j: int| 0 <= j < symbols@.len() ==> #[trigger] views[j] == symbols@[j]@);
    if symbols.len() == 0 {
        return Err(StemError::new(StemErrorCode::FecPolicyMismatch, "symbols"));
    }
    let first = &symbols[0];
    match first.header.validate_config(config) {
        Err(e) => return Err(e),
        Ok(()) => {},
    }
    let n = symbols.len();
    let mut i: usize = 0;
    while i < n
        invariant
            n == symbols@.len(),
            n > 0,
            0 <= i <= n,
            views == symbol_views(symbols@),
            views.len() == n,
            forall|j: int| 0 <= j < n ==> #[trigger] views[j] == symbols@[j]@,
            *first == symbols@[0],
            binding_check(views[0].header, config@) is Ok,
            group_members_check(views, config@, i as int) is Ok,
        decreases n - i,
    {
        proof {
            if group_member_check(views, config@, i as int) is Err {
                lemma_group_members_check_stops(views, config@, i as int, n as int);
            }
        }
        let symbol = &symbols[i];
        match symbol.header.validate_config(config) {
            Err(e) => {
                assert(group_admission(views, config@) == Err::<(), StemError>(e));
                return Err(e);
            },
            Ok(()) => {},
        }
        let grouped = in_same_group(first, symbol);
        let repeated = index_seen(symbols, i);
        if !grouped || repeated {
            proof {
                if repeated {
                    let k = choose|k: int| 0 <= k < i && #[trigger] symbols@[k]@.header.symbol_index
                        == symbols@[i as int]@.header.symbol_index;
                    assert(views[k].header.symbol_index == views[i as int].header.symbol_index);
                }
            }
            assert(group_member_check(views, config@, i as int) is Err);
            return Err(StemError::new(StemErrorCode::FecPolicyMismatch, "symbolGroup"));
        }
        i = i + 1;
    }
    if symbols.len() < first.header.source_symbol_count as usize {
        return Err(StemError::new(StemErrorCode::FecPolicyMismatch, "sourceSymbolCount"));
    }
    match config.fec_strategy() {
        FecStrategy::NoFec => {
            if symbols.len() != 1 || first.header.symbol_kind != SymbolKind::Source {
                return Err(StemError::new(StemErrorCode::FecPolicyMismatch, "fecPolicy.none"));
            }
        },
        _ => {},
    }
    Ok(())
}

/// The group that a recovered payload makes with the group's first symbol:
/// an empty or oversized payload is refused as `FecPolicyMismatch`, a PCM
/// payload that is not one frame of 24-bit samples per channel as
/// `FrameGeometryMismatch`, and otherwise the payload is the group's.
pub fn group_from_payload(first: &AuthenticatedStemSymbol, payload: Vec<u8>) -> (res: Result<RecoveredStemGroup, StemError>)
    ensures
        group_result_view(res) == recovered_group(first@, payload@),
{
    if payload.len() == 0 || payload.len() > 16 * 1024 * 1024 {
        return Err(StemError::new(StemErrorCode::FecPolicyMismatch, "recoveredPayload"));
    }
    if first.header.encoding == StemEncoding::PcmS24le {
        let frames = first.header.frame_samples as u64;
        let channels = first.channel_count as u64;
        assert(frames * channels <= 0xffff_ffffu64 * 0xffffu64) by (nonlinear_arith)
            requires
                frames <= 0xffff_ffffu64,
                channels <= 0xffffu64,
        ;
        let expected_pcm_bytes = frames * channels * 3;
        if payload.len() as u64 != expected_pcm_bytes {
            return Err(StemError::new(StemErrorCode::FrameGeometryMismatch, "pcmPayloadLength"));
        }
    }
    Ok(RecoveredStemGroup {
        header: first.header,
        source_id: first.source_id.clone(),
        required: first.required,
        channel_count: first.channel_count,
        payload,
    })
}

/// Validate one exact symbol group and run its configured recovery strategy.
/// Without FEC the single source symbol's payload is the group payload; with
/// FEC the recoverer gets the configured strategy, the group's symbol counts
/// and all the symbols, and whatever it returns is checked before a group
/// comes back.
pub fn recover_authenticated_group<R: StemFecRecoverer>(
    symbols: &[AuthenticatedStemSymbol],
    config: &AuthoritativeStemConfig,
    recoverer: &R,
) -> (res: Result<RecoveredStemGroup, StemError>)
    ensures
        ({
            let views = symbol_views(symbols@);
            match group_admission(views, config@) {
                Err(e) => res == Err::<RecoveredStemGroup, StemError>(e),
                Ok(()) => if config@.fec_policy.strategy == FecStrategy::NoFec {
                    group_result_view(res) == recovered_group(views[0], views[0].payload)
                } else {
                    exists|recovered: Result<Vec<u8>, FecRecoveryError>|
                        #![trigger call_ensures(
                            R::recover,
                            (
                                recoverer,
                                config@.fec_policy.strategy,
                                views[0].header.source_symbol_count,
                                views[0].header.repair_symbol_count,
                                symbols,
                            ),
                            recovered,
                        )]
                        {
                            &&& call_ensures(
                                R::recover,
                                (
                                    recoverer,
                                    config@.fec_policy.strategy,
                                    views[0].header.source_symbol_count,
                                    views[0].header.repair_symbol_count,
                                    symbols,
                                ),
                                recovered,
                            )
                            &&& match recovered {
                                Err(_) => res == Err::<RecoveredStemGroup, StemError>(
                                    stem_error(StemErrorCode::FecPolicyMismatch, "fecRecovery"),
                                ),
                                Ok(payload) => group_result_view(res) == recovered_group(views[0], payload@),
                            }
                        }
                },
            }
        }),
{
    match admit_group(symbols, config) {
        Err(e) => return Err(e),
        Ok(()) => {},
    }
    let first = &symbols[0];
    assert(first@ == symbol_views(symbols@)[0]);
    // Called through the function value, so that the contract can name this
    // very call by its `call_ensures`.
    let recover_fn = R::recover;
    let payload = match config.fec_strategy() {
        FecStrategy::NoFec => first.payload.clone(),
        strategy => match recover_fn(
            recoverer,
            strategy,
            first.header.source_symbol_count,
            first.header.repair_symbol_count,
            symbols,
        ) {
            Ok(payload) => payload,
            Err(_) => return Err(StemError::new(StemErrorCode::FecPolicyMismatch, "fecRecovery")),
        },
    };
    let res = group_from_payload(first, payload);
    assert(group_result_view(res) == recovered_group(first@, payload@));
    res
}

/// Whatever an AEAD opener returns, an admitted datagram yields a symbol
/// only with the datagram's own header and an opened payload of exactly the
/// declared length; every other outcome is an authentication failure.
pub proof fn law_symbol_only_from_opened_payload(
    h: StemDatagramHeader,
    source: SourceDefinition,
    opened: Result<Seq<u8>, AeadOpenError>,
)
    ensures
        match opened_symbol(h, source, opened) {
            Ok(symbol) => opened == Ok::<Seq<u8>, AeadOpenError>(symbol.payload) && symbol.header == h
                && symbol.payload.len() == h.payload_byte_count && symbol.source_id == source.source_id@,
            Err(e) => e.code == StemErrorCode::AuthenticationFailed,
        },
{
}


/// A header bound to a valid config fits the carrier: its datagram is at
/// most the carrier's MTU, which lies from 576 to 1500 bytes, and it carries
/// the config's generations, key epoch and frame size. A datagram above the
/// MTU is never bound, and when every other binding holds it is refused with
/// `CarrierMtuExceeded` on `maxDatagramBytes`.
pub proof fn law_bound_header_fits_carrier(h: StemDatagramHeader, p: StemConfigParts)
    requires
        crate::config::config_check(p) is Ok,
    ensures
        binding_check(h, p) is Ok ==> {
            &&& h.datagram_byte_count <= p.carrier.max_datagram_bytes
            &&& 576 <= p.carrier.max_datagram_bytes <= 1_500
            &&& h.topology_generation == p.topology_generation
            &&& h.binding_generation == p.binding_generation
            &&& h.config_ref == p.config_ref
            &&& h.config_generation == p.config_generation
            &&& h.source_map_version == p.source_map.version
            &&& h.key_epoch == p.key_epoch
            &&& h.frame_samples == p.source_map.frame_samples
            &&& h.epoch_number >= p.effective_epoch
        },
        h.datagram_byte_count > p.carrier.max_datagram_bytes ==> binding_check(h, p) is Err,
        h.datagram_byte_count > p.carrier.max_datagram_bytes && binding_check(
            StemDatagramHeader { datagram_byte_count: p.carrier.max_datagram_bytes, ..h },
            p,
        ) is Ok ==> binding_check(h, p) == Err::<(), StemError>(
            stem_error(StemErrorCode::CarrierMtuExceeded, "maxDatagramBytes"),
        ),
{
}


/// A symbol that opening gives carries the datagram's own decoded header,
/// which is bound to the config; the datagram is exactly as long as that
/// header declares, and the payload is exactly the declared payload length.
pub proof fn law_opened_symbol_matches_datagram<O: StemAeadOpener>(
    opener: &O,
    datagram: Seq<u8>,
    p: StemConfigParts,
    a: AuthorizationView,
    operation: AuthorizationOperation,
    res: Result<SymbolView, StemError>,
)
    requires
        open_outcome(opener, datagram, p, a, operation, res),
    ensures
        res matches Ok(symbol) ==> {
            &&& spec_decode(datagram) == Ok::<StemDatagramHeader, StemError>(symbol.header)
            &&& binding_check(symbol.header, p) is Ok
            &&& datagram.len() == symbol.header.datagram_byte_count
            &&& symbol.payload.len() == symbol.header.payload_byte_count
        },
{
}


/// With FEC configured and the header's symbol counts those of the config
/// (and their sum within 16 bits), a source symbol binds exactly when its
/// index is below the source count, and a repair symbol exactly when its
/// index lies from the source count up to, not including, the sum of both
/// counts. Without FEC exactly the one source symbol of index 0 binds, with
/// counts 1 and 0.
pub proof fn law_fec_symbol_index_ranges(h: StemDatagramHeader, p: StemConfigParts)
    requires
        h.source_symbol_count == spec_source_symbols(p),
        h.repair_symbol_count == spec_repair_symbols(p),
    ensures
        p.fec_policy.strategy != FecStrategy::NoFec && h.source_symbol_count + h.repair_symbol_count <= u16::MAX
            ==> {
            &&& h.symbol_kind == SymbolKind::Source ==> (fec_binding_check(h, p) is Ok <==> h.symbol_index
                < h.source_symbol_count)
            &&& h.symbol_kind == SymbolKind::Repair ==> (fec_binding_check(h, p) is Ok <==> (h.source_symbol_count
                <= h.symbol_index && h.symbol_index < h.source_symbol_count + h.repair_symbol_count))
        },
        p.fec_policy.strategy == FecStrategy::NoFec ==> (fec_binding_check(h, p) is Ok <==> (h.symbol_kind
            == SymbolKind::Source && h.symbol_index == 0 && h.source_symbol_count == 1 && h.repair_symbol_count
            == 0)),
{
}

/// A recovered payload makes a group exactly when it holds 1 to 16 MiB and,
/// for 24-bit PCM, is one frame of three-byte samples for every channel:
/// `frame_samples * channel_count * 3` bytes. The group then carries the
/// first symbol's header and source facts with that payload.
pub proof fn law_recovered_payload_length(first: SymbolView, payload: Seq<u8>)
    ensures
        recovered_group(first, payload) is Ok <==> {
            &&& 1 <= payload.len() <= 16 * 1024 * 1024
            &&& first.header.encoding == StemEncoding::PcmS24le ==> payload.len() == first.header.frame_samples
                * first.channel_count * 3
        },
        recovered_group(first, payload) matches Ok(g) ==> g.payload == payload && g.header == first.header
            && g.source_id == first.source_id && g.channel_count == first.channel_count,
{
}


/// The header checks on their own: a header passes exactly when its
/// generations, config generation and epoch, pts and group sequence are safe
/// integers (the generations nonzero), its config ref, source map version,
/// key epoch, source ref and source symbol count are nonzero, its frame is 1
/// to 4096 samples, its payload 1 to 1400 bytes, and its datagram is the 84
/// header bytes, the payload and the 16 tag bytes, at most 1500 in all.
pub proof fn law_header_structure(h: StemDatagramHeader)
    ensures
        structural_check(h) is Ok <==> {
            &&& 1 <= h.topology_generation <= 9_007_199_254_740_991
            &&& 1 <= h.binding_generation <= 9_007_199_254_740_991
            &&& 1 <= h.config_generation <= 9_007_199_254_740_991
            &&& h.config_ref != 0 && h.source_map_version != 0 && h.key_epoch != 0 && h.source_ref != 0
            &&& h.source_symbol_count != 0
            &&& h.epoch_number <= 9_007_199_254_740_991
            &&& h.remote_pts <= 9_007_199_254_740_991
            &&& h.group_sequence <= 9_007_199_254_740_991
            &&& 1 <= h.frame_samples <= 4_096
            &&& 1 <= h.payload_byte_count <= 1_400
            &&& h.datagram_byte_count == 84 + h.payload_byte_count + 16
        },
{
}

/// A header binds to a valid config exactly when it carries the config's
/// generations, config ref, source map version and key epoch, names by its
/// ref a source that the config admits, is of an epoch from the effective
/// epoch on, has the config's frame size and the config's encoding for that
/// source, fits the FEC geometry and is no longer than the carrier's MTU.
pub proof fn law_header_binding(h: StemDatagramHeader, p: StemConfigParts)
    ensures
        binding_check(h, p) is Ok <==> {
            &&& h.topology_generation == p.topology_generation
            &&& h.binding_generation == p.binding_generation
            &&& h.config_ref == p.config_ref
            &&& h.config_generation == p.config_generation
            &&& h.source_map_version == p.source_map.version
            &&& h.key_epoch == p.key_epoch
            &&& spec_source_for_ref(p.source_map.sources@, h.source_ref) matches Some(source) && {
                &&& source_admitted(p, source.source_id@)
                &&& spec_encoding_for_source(p, source.source_id@) == Some(h.encoding)
            }
            &&& h.epoch_number >= p.effective_epoch
            &&& h.frame_samples == p.source_map.frame_samples
            &&& fec_binding_check(h, p) is Ok
            &&& h.datagram_byte_count <= p.carrier.max_datagram_bytes
        },
{
}

/// A route authorization admits a source for an operation exactly when it
/// is for the config's identity and generations, for that operation and for
/// program media, lists 1 to 128 valid, strictly sorted source ids that all
/// name sources of the config's map, and lists that source.
pub proof fn law_authorization_admits(a: AuthorizationView, p: StemConfigParts, source_id: Seq<char>, operation: AuthorizationOperation)
    ensures
        authorization_check(a, p, source_id, operation) is Ok <==> {
            &&& same_identity(a.identity, p.identity)
            &&& a.operation == operation
            &&& a.media_class == AuthorizationMediaClass::Program
            &&& a.topology_generation == p.topology_generation
            &&& a.binding_generation == p.binding_generation
            &&& 1 <= a.allowed_source_ids.len() <= 128
            &&& forall|i: int| 0 <= i < a.allowed_source_ids.len() ==> valid_id_chars(#[trigger] a.allowed_source_ids[i]@)
            &&& strictly_sorted(a.allowed_source_ids)
            &&& forall|i: int| 0 <= i < a.allowed_source_ids.len() ==> has_source_id(
                p.source_map.sources@,
                #[trigger] a.allowed_source_ids[i]@,
            )
            &&& exists|i: int| 0 <= i < a.allowed_source_ids.len() && #[trigger] a.allowed_source_ids[i]@ == source_id
        },
{
}

proof fn lemma_group_members_ok(symbols: Seq<SymbolView>, p: StemConfigParts, n: int)
    requires
        0 <= n,
    ensures
        group_members_check(symbols, p, n) is Ok <==> forall|i: int| 0 <= i < n ==> #[trigger] group_member_check(symbols, p, i) is Ok,
    decreases n,
{
    if n > 0 {
        lemma_group_members_ok(symbols, p, n - 1);
    }
}

/// A symbol list is admitted to recovery exactly when it is not empty, every
/// symbol binds to the config and belongs to the first symbol's group, no
/// symbol index repeats, there are at least as many symbols as source
/// symbols, and without FEC it is the one source symbol.
pub proof fn law_group_admitted(symbols: Seq<SymbolView>, p: StemConfigParts)
    ensures
        group_admission(symbols, p) is Ok <==> {
            &&& symbols.len() > 0
            &&& forall|i: int| 0 <= i < symbols.len() ==> binding_check(#[trigger] symbols[i].header, p) is Ok
                && same_group(symbols[0], symbols[i])
            &&& forall|i: int, j: int|
                0 <= i < j < symbols.len() ==> (#[trigger] symbols[i]).header.symbol_index != (#[trigger] symbols[j]).header.symbol_index
            &&& symbols.len() >= symbols[0].header.source_symbol_count
            &&& p.fec_policy.strategy == FecStrategy::NoFec ==> symbols.len() == 1 && symbols[0].header.symbol_kind
                == SymbolKind::Source
        },
{
    lemma_group_members_ok(symbols, p, symbols.len() as int);
    if symbols.len() > 0 {
        if group_members_check(symbols, p, symbols.len() as int) is Ok {
            assert forall|i: int, j: int| 0 <= i < j < symbols.len() implies (#[trigger] symbols[i]).header.symbol_index
                != (#[trigger] symbols[j]).header.symbol_index by {
                assert(group_member_check(symbols, p, j) is Ok);
            }
            assert forall|i: int| 0 <= i < symbols.len() implies binding_check(#[trigger] symbols[i].header, p) is Ok
                && same_group(symbols[0], symbols[i]) by {
                assert(group_member_check(symbols, p, i) is Ok);
            }
        } else {
            let i = choose|i: int| 0 <= i < symbols.len() && !(#[trigger] group_member_check(symbols, p, i) is Ok);
            assert(group_member_check(symbols, p, i) is Err);
        }
    }
}


/// An encoded header is 84 bytes that open with `SST1`, version 1, the
/// symbol kind (0 for source, 1 for repair), the encoding (1 for PCM s24le,
/// 2 for FLAC s24le, 3 for Opus) and a zero byte.
pub proof fn law_header_prefix_bytes(h: StemDatagramHeader)
    ensures
        ({
            let s = header_wire_bytes(h);
            &&& s.len() == 84
            &&& s[0] == 0x53 && s[1] == 0x53 && s[2] == 0x54 && s[3] == 0x31
            &&& s[4] == 1
            &&& s[5] == (if h.symbol_kind == SymbolKind::Source { 0u8 } else { 1u8 })
            &&& s[6] == match h.encoding {
                StemEncoding::PcmS24le => 1u8,
                StemEncoding::FlacS24le => 2u8,
                StemEncoding::Opus => 3u8,
            }
            &&& s[7] == 0
        }),
{
    lemma_header_wire_fields(h);
    let s = header_wire_bytes(h);
    assert(s.take(4)[0] == s[0] && s.take(4)[1] == s[1] && s.take(4)[2] == s[2] && s.take(4)[3] == s[3]);
}

} // verus!
