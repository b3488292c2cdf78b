use vstd::prelude::*;
use vstd::string::StrSliceExecFns;

use crate::common::{
    contains_str, contains_text, is_strictly_sorted, positive_safe, safe, spec_positive_safe, spec_safe,
    str_equal, strictly_sorted, valid_id, valid_id_chars,
};
use crate::error::{invalid, stem_error, StemError, StemErrorCode};

verus! {

/// One contributor identity: tenant, session, session epoch and contributor.
#[derive(Clone, Debug, PartialEq, Eq)]
pub struct CompositeIdentity {
    pub tenant_id: String,
    pub session_id: String,
    pub session_epoch: u64,
    pub contributor_id: String,
}

/// The identity checks, in the order they are made.
pub open spec fn identity_check(identity: CompositeIdentity) -> Result<(), StemError> {
    if !valid_id_chars(identity.tenant_id@) {
        Err(stem_error(StemErrorCode::InvalidConfig, "identity.tenantId"))
    } else if !valid_id_chars(identity.session_id@) {
        Err(stem_error(StemErrorCode::InvalidConfig, "identity.sessionId"))
    } else if !spec_positive_safe(identity.session_epoch) {
        Err(stem_error(StemErrorCode::InvalidConfig, "identity.sessionEpoch"))
    } else if !valid_id_chars(identity.contributor_id@) {
        Err(stem_error(StemErrorCode::InvalidConfig, "identity.contributorId"))
    } else {
        Ok(())
    }
}

/// Two identities name the same contributor: equal text and equal epoch.
pub open spec fn same_identity(a: CompositeIdentity, b: CompositeIdentity) -> bool {
    &&& a.tenant_id@ == b.tenant_id@
    &&& a.session_id@ == b.session_id@
    &&& a.session_epoch == b.session_epoch
    &&& a.contributor_id@ == b.contributor_id@
}

impl CompositeIdentity {
    /// Construct and validate one full contributor identity.
    pub fn new(tenant_id: String, session_id: String, session_epoch: u64, contributor_id: String) -> (res: Result<Self, StemError>)
        ensures
            match res {
                Ok(value) => identity_check(value) is Ok && value.tenant_id == tenant_id
                    && value.session_id == session_id && value.session_epoch == session_epoch
                    && value.contributor_id == contributor_id,
                Err(e) => identity_check(CompositeIdentity { tenant_id, session_id, session_epoch, contributor_id }) == Err::<(), StemError>(e),
            },
    {
        let value = CompositeIdentity { tenant_id, session_id, session_epoch, contributor_id };
        match value.validate() {
            Ok(()) => Ok(value),
            Err(e) => Err(e),
        }
    }

    pub fn tenant_id(&self) -> (res: &str)
        ensures
            res@ == self.tenant_id@,
    {
        self.tenant_id.as_str()
    }

    pub fn session_id(&self) -> (res: &str)
        ensures
            res@ == self.session_id@,
    {
        self.session_id.as_str()
    }

    pub fn session_epoch(&self) -> (res: u64)
        ensures
            res == self.session_epoch,
    {
        self.session_epoch
    }

    pub fn contributor_id(&self) -> (res: &str)
        ensures
            res@ == self.contributor_id@,
    {
        self.contributor_id.as_str()
    }

    pub fn validate(&self) -> (res: Result<(), StemError>)
        ensures
            res == identity_check(*self),
    {
        if !valid_id(self.tenant_id.as_str()) {
            return Err(invalid("identity.tenantId"));
        }
        if !valid_id(self.session_id.as_str()) {
            return Err(invalid("identity.sessionId"));
        }
        if !positive_safe(self.session_epoch) {
            return Err(invalid("identity.sessionEpoch"));
        }
        if !valid_id(self.contributor_id.as_str()) {
            return Err(invalid("identity.contributorId"));
        }
        Ok(())
    }

    /// Exact comparison of two identities.
    pub fn same_as(&self, other: &CompositeIdentity) -> (res: bool)
        ensures
            res == same_identity(*self, *other),
    {
        self.session_epoch == other.session_epoch && self.tenant_id == other.tenant_id
            && self.session_id == other.session_id && self.contributor_id == other.contributor_id
    }

    /// A field-by-field copy.
    pub fn duplicate(&self) -> (res: CompositeIdentity)
        ensures
            res == *self,
    {
        CompositeIdentity {
            tenant_id: self.tenant_id.clone(),
            session_id: self.session_id.clone(),
            session_epoch: self.session_epoch,
            contributor_id: self.contributor_id.clone(),
        }
    }
}


#[derive(Clone, Copy, Debug, PartialEq, Eq, Structural)]
pub enum ChannelLayoutName {
    Mono,
    Stereo,
    Lcr,
    Quad,
    FivePointOne,
    SevenPointOne,
    AmbisonicAcnSn3d,
    Discrete,
}

#[derive(Clone, Copy, Debug, PartialEq, Eq, Structural)]
pub enum ChannelRole {
    Mono,
    FrontLeft,
    FrontRight,
    FrontCenter,
    Lfe,
    SideLeft,
    SideRight,
    RearLeft,
    RearRight,
    AmbisonicW,
    AmbisonicX,
    AmbisonicY,
    AmbisonicZ,
    Discrete,
}

/// One channel of a stem's layout.
#[derive(Clone, Debug, PartialEq, Eq)]
pub struct ChannelDefinition {
    pub channel_id: String,
    pub order: u16,
    pub role: ChannelRole,
    pub label: Option<String>,
}

/// The channel layout of one source.
#[derive(Clone, Debug, PartialEq, Eq)]
pub struct ChannelLayout {
    pub schema_version: u8,
    pub layout: ChannelLayoutName,
    pub channel_count: u16,
    pub channels: Vec<ChannelDefinition>,
}

/// The channel count that a named layout fixes (none for `Discrete`).
pub open spec fn layout_channel_count(layout: ChannelLayoutName) -> Option<u16> {
    match layout {
        ChannelLayoutName::Mono => Some(1u16),
        ChannelLayoutName::Stereo => Some(2u16),
        ChannelLayoutName::Lcr => Some(3u16),
        ChannelLayoutName::Quad => Some(4u16),
        ChannelLayoutName::AmbisonicAcnSn3d => Some(4u16),
        ChannelLayoutName::FivePointOne => Some(6u16),
        ChannelLayoutName::SevenPointOne => Some(8u16),
        ChannelLayoutName::Discrete => None,
    }
}

/// The checks of channel `j`: a fresh valid id, its position as order, a short label.
pub open spec fn channel_check(channels: Seq<ChannelDefinition>, j: int) -> Result<(), StemError> {
    let c = channels[j];
    if !valid_id_chars(c.channel_id@) || (exists|k: int| 0 <= k < j && #[trigger] channels[k].channel_id@ == c.channel_id@) {
        Err(stem_error(StemErrorCode::InvalidConfig, "sourceMap.sources.channelLayout.channels.channelId"))
    } else if c.order != j {
        Err(stem_error(StemErrorCode::InvalidConfig, "sourceMap.sources.channelLayout.channels.order"))
    } else if c.label is Some && (c.label->0@.len() == 0 || c.label->0@.len() > 80) {
        Err(stem_error(StemErrorCode::InvalidConfig, "sourceMap.sources.channelLayout.channels.label"))
    } else {
        Ok(())
    }
}

/// The first failing check among the first `n` channels.
pub open spec fn channels_check(channels: Seq<ChannelDefinition>, n: int) -> Result<(), StemError>
    decreases n,
{
    if n <= 0 {
        Ok(())
    } else {
        match channels_check(channels, n - 1) {
            Err(e) => Err(e),
            Ok(()) => channel_check(channels, n - 1),
        }
    }
}

pub open spec fn layout_check(layout: ChannelLayout) -> Result<(), StemError> {
    if layout.schema_version != 1 {
        Err(stem_error(StemErrorCode::InvalidConfig, "sourceMap.sources.channelLayout.constants"))
    } else if !(1 <= layout.channel_count <= 128) || layout.channel_count != layout.channels@.len() {
        Err(stem_error(StemErrorCode::InvalidConfig, "sourceMap.sources.channelLayout.channelCount"))
    } else if layout_channel_count(layout.layout) is Some && layout_channel_count(layout.layout)->0 != layout.channel_count {
        Err(stem_error(StemErrorCode::InvalidConfig, "sourceMap.sources.channelLayout.layout"))
    } else {
        channels_check(layout.channels@, layout.channels@.len() as int)
    }
}

fn expected_channel_count(layout: ChannelLayoutName) -> (res: Option<u16>)
    ensures
        res == layout_channel_count(layout),
{
    match layout {
        ChannelLayoutName::Mono => Some(1),
        ChannelLayoutName::Stereo => Some(2),
        ChannelLayoutName::Lcr => Some(3),
        ChannelLayoutName::Quad | ChannelLayoutName::AmbisonicAcnSn3d => Some(4),
        ChannelLayoutName::FivePointOne => Some(6),
        ChannelLayoutName::SevenPointOne => Some(8),
        ChannelLayoutName::Discrete => None,
    }
}

impl ChannelLayout {
    pub fn new(schema_version: u8, layout: ChannelLayoutName, channel_count: u16, channels: Vec<ChannelDefinition>) -> (res: Self)
        ensures
            res == (ChannelLayout { schema_version, layout, channel_count, channels }),
    {
        ChannelLayout { schema_version, layout, channel_count, channels }
    }

    pub fn layout(&self) -> (res: ChannelLayoutName)
        ensures
            res == self.layout,
    {
        self.layout
    }

    pub fn channel_count(&self) -> (res: u16)
        ensures
            res == self.channel_count,
    {
        self.channel_count
    }

    pub fn validate(&self) -> (res: Result<(), StemError>)
        ensures
            res == layout_check(*self),
    {
        if self.schema_version != 1 {
            return Err(invalid("sourceMap.sources.channelLayout.constants"));
        }
        if !(1 <= self.channel_count && self.channel_count <= 128) || self.channel_count as usize != self.channels.len() {
            return Err(invalid("sourceMap.sources.channelLayout.channelCount"));
        }
        match expected_channel_count(self.layout) {
            Some(count) => {
                if count != self.channel_count {
                    return Err(invalid("sourceMap.sources.channelLayout.layout"));
                }
            },
            None => {},
        }
        let n = self.channels.len();
        let mut j: usize = 0;
        while j < n
            invariant
                n == self.channels@.len(),
                0 <= j <= n,
                channels_check(self.channels@, j as int) is Ok,
                layout_check(*self) == channels_check(self.channels@, n as int),
            decreases n - j,
        {
            proof {
                if channel_check(self.channels@, j as int) is Err {
                    lemma_channels_check_stops(self.channels@, j as int, n as int);
                }
            }
            let channel = &self.channels[j];
            let fresh = !channel_id_seen(&self.channels, j, channel.channel_id.as_str());
            if !valid_id(channel.channel_id.as_str()) || !fresh {
                return Err(invalid("sourceMap.sources.channelLayout.channels.channelId"));
            }
            if channel.order as usize != j {
                return Err(invalid("sourceMap.sources.channelLayout.channels.order"));
            }
            match &channel.label {
                Some(label) => {
                    if label.as_str().unicode_len() == 0 || label.as_str().unicode_len() > 80 {
                        return Err(invalid("sourceMap.sources.channelLayout.channels.label"));
                    }
                },
                None => {},
            }
            j = j + 1;
        }
        Ok(())
    }
}

proof fn lemma_channels_check_stops(cs: Seq<ChannelDefinition>, j: int, m: int)
    requires
        0 <= j < m,
        channels_check(cs, j) is Ok,
        channel_check(cs, j) is Err,
    ensures
        channels_check(cs, m) == channel_check(cs, j),
    decreases m - j,
{
    if m > j + 1 {
        lemma_channels_check_stops(cs, j, m - 1);
    }
}

fn channel_id_seen(channels: &Vec<ChannelDefinition>, j: usize, id: &str) -> (res: bool)
    requires
        j <= channels@.len(),
    ensures
        res == (exists|k: int| 0 <= k < j && #[trigger] channels@[k].channel_id@ == id@),
{
    let mut k: usize = 0;
    while k < j
        invariant
            j <= channels@.len(),
            0 <= k <= j,
            forall|m: int| 0 <= m < k ==> #[trigger] channels@[m].channel_id@ != id@,
        decreases j - k,
    {
        if str_equal(channels[k].channel_id.as_str(), id) {
            return true;
        }
        k = k + 1;
    }
    false
}


/// One source (stem) of the authoritative source map.
#[derive(Clone, Debug, PartialEq, Eq)]
pub struct SourceDefinition {
    pub source_id: String,
    pub source_ref: u16,
    pub label: String,
    pub order: u16,
    pub required: bool,
    pub priority: Option<u16>,
    pub channel_layout: ChannelLayout,
}

pub open spec fn source_check(s: SourceDefinition, expected_order: int) -> Result<(), StemError> {
    if !valid_id_chars(s.source_id@) || s.source_ref == 0 {
        Err(stem_error(StemErrorCode::InvalidConfig, "sourceMap.sources.identity"))
    } else if s.label@.len() == 0 || s.label@.len() > 160 {
        Err(stem_error(StemErrorCode::InvalidConfig, "sourceMap.sources.label"))
    } else if s.order != expected_order {
        Err(stem_error(StemErrorCode::InvalidConfig, "sourceMap.sources.order"))
    } else if s.priority is Some && s.priority->0 > 1000 {
        Err(stem_error(StemErrorCode::InvalidConfig, "sourceMap.sources.priority"))
    } else {
        layout_check(s.channel_layout)
    }
}

impl SourceDefinition {
    pub fn new(
        source_id: String,
        source_ref: u16,
        label: String,
        order: u16,
        required: bool,
        priority: Option<u16>,
        channel_layout: ChannelLayout,
    ) -> (res: Self)
        ensures
            res == (SourceDefinition { source_id, source_ref, label, order, required, priority, channel_layout }),
    {
        SourceDefinition { source_id, source_ref, label, order, required, priority, channel_layout }
    }

    pub fn source_id(&self) -> (res: &str)
        ensures
            res@ == self.source_id@,
    {
        self.source_id.as_str()
    }

    pub fn source_ref(&self) -> (res: u16)
        ensures
            res == self.source_ref,
    {
        self.source_ref
    }

    pub fn order(&self) -> (res: u16)
        ensures
            res == self.order,
    {
        self.order
    }

    pub fn required(&self) -> (res: bool)
        ensures
            res == self.required,
    {
        self.required
    }

    pub fn channel_layout(&self) -> (res: &ChannelLayout)
        ensures
            *res == self.channel_layout,
    {
        &self.channel_layout
    }

    pub fn validate(&self, expected_order: usize) -> (res: Result<(), StemError>)
        ensures
            res == source_check(*self, expected_order as int),
    {
        if !valid_id(self.source_id.as_str()) || self.source_ref == 0 {
            return Err(invalid("sourceMap.sources.identity"));
        }
        let label_len = self.label.as_str().unicode_len();
        if label_len == 0 || label_len > 160 {
            return Err(invalid("sourceMap.sources.label"));
        }
        if self.order as usize != expected_order {
            return Err(invalid("sourceMap.sources.order"));
        }
        match self.priority {
            Some(priority) => {
                if priority > 1000 {
                    return Err(invalid("sourceMap.sources.priority"));
                }
            },
            None => {},
        }
        self.channel_layout.validate()
    }
}

/// The source map: the timeline and the set of sources of one config generation.
#[derive(Clone, Debug, PartialEq, Eq)]
pub struct SourceMap {
    pub schema_version: u8,
    pub talkback_included: bool,
    pub identity: CompositeIdentity,
    pub version: u64,
    pub config_generation: u64,
    pub effective_epoch: u64,
    pub source_clock_id: String,
    pub sample_rate: u32,
    pub frame_samples: u32,
    pub sources: Vec<SourceDefinition>,
}

/// Source `i` passes its own checks and repeats no earlier id or ref.
pub open spec fn source_entry_check(ss: Seq<SourceDefinition>, i: int) -> Result<(), StemError> {
    match source_check(ss[i], i) {
        Err(e) => Err(e),
        Ok(()) => if exists|k: int|
            #![trigger ss[k]] 0 <= k < i && (ss[k].source_id@ == ss[i].source_id@ || ss[k].source_ref == ss[i].source_ref) {
            Err(stem_error(StemErrorCode::InvalidConfig, "sourceMap.sources.unique"))
        } else {
            Ok(())
        },
    }
}

pub open spec fn sources_check(ss: Seq<SourceDefinition>, n: int) -> Result<(), StemError>
    decreases n,
{
    if n <= 0 {
        Ok(())
    } else {
        match sources_check(ss, n - 1) {
            Err(e) => Err(e),
            Ok(()) => source_entry_check(ss, n - 1),
        }
    }
}

proof fn lemma_sources_check_stops(ss: Seq<SourceDefinition>, j: int, m: int)
    requires
        0 <= j < m,
        sources_check(ss, j) is Ok,
        source_entry_check(ss, j) is Err,
    ensures
        sources_check(ss, m) == source_entry_check(ss, j),
    decreases m - j,
{
    if m > j + 1 {
        lemma_sources_check_stops(ss, j, m - 1);
    }
}

#[derive(Clone, Copy, Debug, PartialEq, Eq, Structural)]
pub enum RepresentationMode {
    PcmS24le,
    FlacS24le,
    OpusStems,
    PriorityStems,
}

#[derive(Clone, Copy, Debug, PartialEq, Eq, Structural)]
pub enum StemEncoding {
    PcmS24le,
    FlacS24le,
    Opus,
}

#[derive(Clone, Copy, Debug, PartialEq, Eq, Structural)]
pub enum PriorityEncoding {
    PcmS24le,
    FlacS24le,
    OpusStems,
}

/// The interleaved PCM layout of the PCM and FLAC representations.
#[derive(Clone, Copy, Debug, PartialEq, Eq, Structural)]
pub enum PcmFormat {
    S24leInterleavedV1,
}

pub open spec fn priority_stem_encoding(value: PriorityEncoding) -> StemEncoding {
    match value {
        PriorityEncoding::PcmS24le => StemEncoding::PcmS24le,
        PriorityEncoding::FlacS24le => StemEncoding::FlacS24le,
        PriorityEncoding::OpusStems => StemEncoding::Opus,
    }
}

impl PriorityEncoding {
    pub fn stem_encoding(self) -> (res: StemEncoding)
        ensures
            res == priority_stem_encoding(self),
    {
        match self {
            PriorityEncoding::PcmS24le => StemEncoding::PcmS24le,
            PriorityEncoding::FlacS24le => StemEncoding::FlacS24le,
            PriorityEncoding::OpusStems => StemEncoding::Opus,
        }
    }
}

/// How every admitted source is coded.
#[derive(Clone, Debug, PartialEq, Eq)]
pub struct Representation {
    pub mode: RepresentationMode,
    pub sample_rate: u32,
    pub frame_samples: u32,
    pub independently_decodable_per_source: bool,
    pub pcm_format: Option<PcmFormat>,
    pub opus_frame_duration_microseconds: Option<u32>,
    pub priority_encoding: Option<PriorityEncoding>,
    pub priority_source_ids: Option<Vec<String>>,
}

/// The deadline and release policy of an epoch.
#[derive(Clone, Copy, Debug, PartialEq, Eq)]
pub struct LatencyPolicy {
    pub aggregation_deadline_microseconds: u32,
    pub receiver_allowance_milliseconds: u32,
    pub released_epoch_mutable: bool,
}

#[derive(Clone, Copy, Debug, PartialEq, Eq, Structural)]
pub enum FecStrategy {
    NoFec,
    Duplicate,
    Xor,
    ReedSolomon,
    Raptorq,
}

/// The repair-overhead ceiling. The ceiling is a floating-point percentage;
/// the library carries its IEEE-754 bits unchanged and decides from them
/// whether it is a finite value in `0.0..=100.0`. Whether the configured
/// `repair * 100 / source` exceeds it by more than `f64::EPSILON` is a
/// floating-point comparison, which the converter from the wire form makes
/// and hands over as `admits_configured_symbols`.
#[derive(Clone, Copy, Debug, PartialEq, Eq)]
pub struct RepairOverheadCeiling {
    pub percent_bits: u64,
    pub admits_configured_symbols: bool,
}

/// The bits of `100.0_f64`.
pub const HUNDRED_PERCENT_BITS: u64 = 0x4059_0000_0000_0000;

/// The bits of `-0.0_f64`.
pub const NEGATIVE_ZERO_BITS: u64 = 0x8000_0000_0000_0000;

/// The IEEE-754 double with these bits is finite and within `0.0..=100.0`:
/// a non-negative double orders as its bits do, so these are the bits from
/// `+0.0` up to `100.0`, and `-0.0`, which equals `0.0`. Infinities, NaNs and
/// every other negative value fall outside.
pub open spec fn percent_in_range(bits: u64) -> bool {
    bits <= HUNDRED_PERCENT_BITS || bits == NEGATIVE_ZERO_BITS
}

/// Whether the ceiling is a finite percentage from 0 to 100.
pub fn ceiling_in_range(bits: u64) -> (res: bool)
    ensures
        res == percent_in_range(bits),
{
    bits <= HUNDRED_PERCENT_BITS || bits == NEGATIVE_ZERO_BITS
}

#[derive(Clone, Copy, Debug, PartialEq, Eq)]
pub struct FecPolicy {
    pub strategy: FecStrategy,
    pub same_deadline_epoch_only: bool,
    pub max_repair_overhead: RepairOverheadCeiling,
    pub source_symbols: Option<u16>,
    pub repair_symbols: Option<u16>,
}

#[derive(Clone, Copy, Debug, PartialEq, Eq, Structural)]
pub enum TransportProfile {
    NativeDatagram,
    WebtransportDatagram,
}

/// The datagram carrier of the stems.
#[derive(Clone, Copy, Debug, PartialEq, Eq)]
pub struct CarrierProfile {
    pub transport_profile: TransportProfile,
    pub max_datagram_bytes: u16,
    pub fragmentation_required: bool,
}

impl CarrierProfile {
    pub fn new(transport_profile: TransportProfile, max_datagram_bytes: u16, fragmentation_required: bool) -> (res: Self)
        ensures
            res == (CarrierProfile { transport_profile, max_datagram_bytes, fragmentation_required }),
    {
        CarrierProfile { transport_profile, max_datagram_bytes, fragmentation_required }
    }

    pub fn transport_profile(&self) -> (res: TransportProfile)
        ensures
            res == self.transport_profile,
    {
        self.transport_profile
    }

    pub fn max_datagram_bytes(&self) -> (res: u16)
        ensures
            res == self.max_datagram_bytes,
    {
        self.max_datagram_bytes
    }
}

/// Every field of one stem stream config, before validation.
#[derive(Clone, Debug, PartialEq, Eq)]
pub struct StemConfigParts {
    pub schema_version: u8,
    pub talkback_included: bool,
    pub identity: CompositeIdentity,
    pub topology_generation: u64,
    pub binding_generation: u64,
    pub config_ref: u32,
    pub config_generation: u64,
    pub effective_epoch: u64,
    pub source_map: SourceMap,
    pub representation: Representation,
    pub latency_policy: LatencyPolicy,
    pub fec_policy: FecPolicy,
    pub carrier: CarrierProfile,
    pub key_epoch: u32,
    pub admission_decision_id: String,
}

pub open spec fn source_map_check(p: StemConfigParts) -> Result<(), StemError> {
    let m = p.source_map;
    if m.schema_version != 1 || m.talkback_included || !same_identity(m.identity, p.identity)
        || m.config_generation != p.config_generation || m.effective_epoch != p.effective_epoch
        || !spec_positive_safe(m.version) || m.version > u32::MAX || !valid_id_chars(m.source_clock_id@)
        || !(8_000 <= m.sample_rate <= 384_000) || !(1 <= m.frame_samples <= 4_096)
        || m.sources@.len() == 0 || m.sources@.len() > 128 {
        Err(stem_error(StemErrorCode::InvalidConfig, "sourceMap"))
    } else {
        sources_check(m.sources@, m.sources@.len() as int)
    }
}

/// Some source of `ss` has the id `id`.
pub open spec fn has_source_id(ss: Seq<SourceDefinition>, id: Seq<char>) -> bool {
    exists|i: int| 0 <= i < ss.len() && #[trigger] ss[i].source_id@ == id
}

pub open spec fn valid_opus_duration(value: Option<u32>) -> bool {
    value is Some && (value->0 == 2_500 || value->0 == 5_000 || value->0 == 10_000 || value->0 == 20_000)
}

/// The PCM/FLAC coding settings: the S24 PCM layout and no Opus frame duration.
pub open spec fn pcm_coding_ok(r: Representation) -> bool {
    r.pcm_format == Some(PcmFormat::S24leInterleavedV1) && r.opus_frame_duration_microseconds is None
}

/// The Opus coding settings: a supported frame duration and no PCM layout.
pub open spec fn opus_coding_ok(r: Representation) -> bool {
    valid_opus_duration(r.opus_frame_duration_microseconds) && r.pcm_format is None
}

pub open spec fn representation_check(p: StemConfigParts) -> Result<(), StemError> {
    let r = p.representation;
    let invalid_rep = stem_error(StemErrorCode::InvalidConfig, "representation");
    if r.sample_rate != p.source_map.sample_rate || r.frame_samples != p.source_map.frame_samples
        || !r.independently_decodable_per_source {
        Err(stem_error(StemErrorCode::InvalidConfig, "representation.geometry"))
    } else {
        match r.mode {
            RepresentationMode::PcmS24le | RepresentationMode::FlacS24le => {
                if !pcm_coding_ok(r) || r.priority_encoding is Some || r.priority_source_ids is Some {
                    Err(invalid_rep)
                } else {
                    Ok(())
                }
            },
            RepresentationMode::OpusStems => {
                if !opus_coding_ok(r) || r.priority_encoding is Some || r.priority_source_ids is Some {
                    Err(invalid_rep)
                } else {
                    Ok(())
                }
            },
            RepresentationMode::PriorityStems => {
                if r.priority_encoding is None {
                    Err(stem_error(StemErrorCode::InvalidConfig, "representation.priorityEncoding"))
                } else if r.priority_source_ids is None {
                    Err(stem_error(StemErrorCode::InvalidConfig, "representation.prioritySourceIds"))
                } else {
                    let ids = r.priority_source_ids->0@;
                    if ids.len() == 0 || ids.len() > 128 || !strictly_sorted(ids)
                        || (exists|i: int| 0 <= i < ids.len() && !has_source_id(p.source_map.sources@, #[trigger] ids[i]@)) {
                        Err(stem_error(StemErrorCode::InvalidConfig, "representation.prioritySourceIds"))
                    } else {
                        match r.priority_encoding->0 {
                            PriorityEncoding::PcmS24le | PriorityEncoding::FlacS24le => {
                                if !pcm_coding_ok(r) { Err(invalid_rep) } else { Ok(()) }
                            },
                            PriorityEncoding::OpusStems => {
                                if !opus_coding_ok(r) { Err(invalid_rep) } else { Ok(()) }
                            },
                        }
                    }
                }
            },
        }
    }
}

pub open spec fn latency_check(l: LatencyPolicy) -> Result<(), StemError> {
    if !(100 <= l.aggregation_deadline_microseconds <= 5_000)
        || !(l.receiver_allowance_milliseconds == 10 || l.receiver_allowance_milliseconds == 20
            || l.receiver_allowance_milliseconds == 25 || l.receiver_allowance_milliseconds == 75)
        || l.released_epoch_mutable {
        Err(stem_error(StemErrorCode::InvalidConfig, "latencyPolicy"))
    } else {
        Ok(())
    }
}

pub open spec fn fec_check(f: FecPolicy) -> Result<(), StemError> {
    if !f.same_deadline_epoch_only || !percent_in_range(f.max_repair_overhead.percent_bits) {
        Err(stem_error(StemErrorCode::InvalidConfig, "fecPolicy"))
    } else if f.strategy == FecStrategy::NoFec {
        if f.source_symbols is Some || f.repair_symbols is Some {
            Err(stem_error(StemErrorCode::InvalidConfig, "fecPolicy.symbols"))
        } else {
            Ok(())
        }
    } else if !(f.source_symbols is Some && f.source_symbols->0 > 0 && f.repair_symbols is Some && f.repair_symbols->0 > 0) {
        Err(stem_error(StemErrorCode::InvalidConfig, "fecPolicy.symbols"))
    } else if !f.max_repair_overhead.admits_configured_symbols {
        Err(stem_error(StemErrorCode::InvalidConfig, "fecPolicy.maxRepairOverheadPercent"))
    } else if f.strategy == FecStrategy::Duplicate && (f.source_symbols->0 != 1 || f.repair_symbols->0 != 1) {
        Err(stem_error(StemErrorCode::InvalidConfig, "fecPolicy.duplicateGeometry"))
    } else if f.strategy == FecStrategy::Xor && f.repair_symbols->0 != 1 {
        Err(stem_error(StemErrorCode::InvalidConfig, "fecPolicy.xorGeometry"))
    } else {
        Ok(())
    }
}

/// The semantic checks of a config, in the order they are made; `Ok` exactly
/// for the configs that an `AuthoritativeStemConfig` may hold.
pub open spec fn config_check(p: StemConfigParts) -> Result<(), StemError> {
    if p.schema_version != 1 || p.talkback_included {
        Err(stem_error(StemErrorCode::InvalidConfig, "config.constants"))
    } else if identity_check(p.identity) is Err {
        identity_check(p.identity)
    } else if !spec_positive_safe(p.topology_generation) || !spec_positive_safe(p.binding_generation)
        || p.config_ref == 0 || !spec_positive_safe(p.config_generation) || !spec_safe(p.effective_epoch)
        || p.key_epoch == 0 || !valid_id_chars(p.admission_decision_id@) {
        Err(stem_error(StemErrorCode::InvalidConfig, "config.generations"))
    } else if source_map_check(p) is Err {
        source_map_check(p)
    } else if representation_check(p) is Err {
        representation_check(p)
    } else if latency_check(p.latency_policy) is Err {
        latency_check(p.latency_policy)
    } else if fec_check(p.fec_policy) is Err {
        fec_check(p.fec_policy)
    } else if !(576 <= p.carrier.max_datagram_bytes <= 1_500) || p.carrier.fragmentation_required {
        Err(stem_error(StemErrorCode::InvalidConfig, "carrier"))
    } else {
        Ok(())
    }
}

/// One authoritative, semantically valid stem stream config.
#[derive(Debug, PartialEq, Eq)]
pub struct AuthoritativeStemConfig {
    parts: StemConfigParts,
}

impl View for AuthoritativeStemConfig {
    type V = StemConfigParts;

    closed spec fn view(&self) -> StemConfigParts {
        self.parts
    }
}


/// Whether the id of some source equals `id`.
fn source_id_present(ss: &Vec<SourceDefinition>, id: &str) -> (res: bool)
    ensures
        res == has_source_id(ss@, id@),
{
    let mut i: usize = 0;
    while i < ss.len()
        invariant
            0 <= i <= ss@.len(),
            forall|j: int| 0 <= j < i ==> #[trigger] ss@[j].source_id@ != id@,
        decreases ss@.len() - i,
    {
        if str_equal(ss[i].source_id.as_str(), id) {
            return true;
        }
        i = i + 1;
    }
    false
}

/// Whether source `i` repeats the id or the ref of an earlier source.
fn source_repeats_earlier(ss: &Vec<SourceDefinition>, i: usize) -> (res: bool)
    requires
        i < ss@.len(),
    ensures
        res == (exists|k: int| #![trigger ss@[k]] 0 <= k < i && (ss@[k].source_id@ == ss@[i as int].source_id@ || ss@[k].source_ref == ss@[i as int].source_ref)),
{
    let mut k: usize = 0;
    while k < i
        invariant
            i < ss@.len(),
            0 <= k <= i,
            forall|m: int| #![trigger ss@[m]] 0 <= m < k ==> !(ss@[m].source_id@ == ss@[i as int].source_id@ || ss@[m].source_ref == ss@[i as int].source_ref),
        decreases i - k,
    {
        if str_equal(ss[k].source_id.as_str(), ss[i].source_id.as_str()) || ss[k].source_ref == ss[i].source_ref {
            return true;
        }
        k = k + 1;
    }
    false
}

fn check_source_map(p: &StemConfigParts) -> (res: Result<(), StemError>)
    ensures
        res == source_map_check(*p),
{
    let m = &p.source_map;
    if m.schema_version != 1 || m.talkback_included || !m.identity.same_as(&p.identity)
        || m.config_generation != p.config_generation || m.effective_epoch != p.effective_epoch
        || !positive_safe(m.version) || m.version > 0xffff_ffff || !valid_id(m.source_clock_id.as_str())
        || !(8_000 <= m.sample_rate && m.sample_rate <= 384_000) || !(1 <= m.frame_samples && m.frame_samples <= 4_096)
        || m.sources.len() == 0 || m.sources.len() > 128 {
        return Err(invalid("sourceMap"));
    }
    let n = m.sources.len();
    let mut i: usize = 0;
    while i < n
        invariant
            n == m.sources@.len(),
            0 <= i <= n,
            sources_check(m.sources@, i as int) is Ok,
            source_map_check(*p) == sources_check(m.sources@, n as int),
            m == p.source_map,
        decreases n - i,
    {
        proof {
            if source_entry_check(m.sources@, i as int) is Err {
                lemma_sources_check_stops(m.sources@, i as int, n as int);
            }
        }
        match m.sources[i].validate(i) {
            Err(e) => return Err(e),
            Ok(()) => {},
        }
        if source_repeats_earlier(&m.sources, i) {
            return Err(invalid("sourceMap.sources.unique"));
        }
        i = i + 1;
    }
    Ok(())
}

fn opus_duration_ok(value: Option<u32>) -> (res: bool)
    ensures
        res == valid_opus_duration(value),
{
    match value {
        Some(v) => v == 2_500 || v == 5_000 || v == 10_000 || v == 20_000,
        None => false,
    }
}

fn pcm_coding(r: &Representation) -> (res: bool)
    ensures
        res == pcm_coding_ok(*r),
{
    match r.pcm_format {
        Some(PcmFormat::S24leInterleavedV1) => {
            assert(r.pcm_format == Some(PcmFormat::S24leInterleavedV1));
            r.opus_frame_duration_microseconds.is_none()
        },
        None => false,
    }
}

fn opus_coding(r: &Representation) -> (res: bool)
    ensures
        res == opus_coding_ok(*r),
{
    opus_duration_ok(r.opus_frame_duration_microseconds) && r.pcm_format.is_none()
}

fn check_representation(p: &StemConfigParts) -> (res: Result<(), StemError>)
    ensures
        res == representation_check(*p),
{
    let r = &p.representation;
    if r.sample_rate != p.source_map.sample_rate || r.frame_samples != p.source_map.frame_samples
        || !r.independently_decodable_per_source {
        return Err(invalid("representation.geometry"));
    }
    match r.mode {
        RepresentationMode::PcmS24le | RepresentationMode::FlacS24le => {
            if !pcm_coding(r) || r.priority_encoding.is_some() || r.priority_source_ids.is_some() {
                return Err(invalid("representation"));
            }
            Ok(())
        },
        RepresentationMode::OpusStems => {
            if !opus_coding(r) || r.priority_encoding.is_some() || r.priority_source_ids.is_some() {
                return Err(invalid("representation"));
            }
            Ok(())
        },
        RepresentationMode::PriorityStems => {
            let encoding = match r.priority_encoding {
                Some(e) => e,
                None => return Err(invalid("representation.priorityEncoding")),
            };
            let ids = match &r.priority_source_ids {
                Some(ids) => ids,
                None => return Err(invalid("representation.prioritySourceIds")),
            };
            if ids.len() == 0 || ids.len() > 128 || !is_strictly_sorted(ids) || !all_ids_are_sources(ids, &p.source_map.sources) {
                return Err(invalid("representation.prioritySourceIds"));
            }
            match encoding {
                PriorityEncoding::PcmS24le | PriorityEncoding::FlacS24le => {
                    if !pcm_coding(r) {
                        return Err(invalid("representation"));
                    }
                },
                PriorityEncoding::OpusStems => {
                    if !opus_coding(r) {
                        return Err(invalid("representation"));
                    }
                },
            }
            Ok(())
        },
    }
}

fn all_ids_are_sources(ids: &Vec<String>, ss: &Vec<SourceDefinition>) -> (res: bool)
    ensures
        res == !(exists|i: int| 0 <= i < ids@.len() && !has_source_id(ss@, #[trigger] ids@[i]@)),
{
    let mut i: usize = 0;
    while i < ids.len()
        invariant
            0 <= i <= ids@.len(),
            forall|j: int| 0 <= j < i ==> has_source_id(ss@, #[trigger] ids@[j]@),
        decreases ids@.len() - i,
    {
        if !source_id_present(ss, ids[i].as_str()) {
            return false;
        }
        i = i + 1;
    }
    true
}

fn check_latency(l: &LatencyPolicy) -> (res: Result<(), StemError>)
    ensures
        res == latency_check(*l),
{
    let allowance = l.receiver_allowance_milliseconds;
    if !(100 <= l.aggregation_deadline_microseconds && l.aggregation_deadline_microseconds <= 5_000)
        || !(allowance == 10 || allowance == 20 || allowance == 25 || allowance == 75)
        || l.released_epoch_mutable {
        return Err(invalid("latencyPolicy"));
    }
    Ok(())
}

fn check_fec(f: &FecPolicy) -> (res: Result<(), StemError>)
    ensures
        res == fec_check(*f),
{
    if !f.same_deadline_epoch_only || !ceiling_in_range(f.max_repair_overhead.percent_bits) {
        return Err(invalid("fecPolicy"));
    }
    match f.strategy {
        FecStrategy::NoFec => {
            if f.source_symbols.is_some() || f.repair_symbols.is_some() {
                return Err(invalid("fecPolicy.symbols"));
            }
            Ok(())
        },
        _ => {
            let (source, repair) = match (f.source_symbols, f.repair_symbols) {
                (Some(source), Some(repair)) => {
                    if source == 0 || repair == 0 {
                        return Err(invalid("fecPolicy.symbols"));
                    }
                    (source, repair)
                },
                _ => return Err(invalid("fecPolicy.symbols")),
            };
            if !f.max_repair_overhead.admits_configured_symbols {
                return Err(invalid("fecPolicy.maxRepairOverheadPercent"));
            }
            match f.strategy {
                FecStrategy::Duplicate => {
                    if source != 1 || repair != 1 {
                        return Err(invalid("fecPolicy.duplicateGeometry"));
                    }
                },
                FecStrategy::Xor => {
                    if repair != 1 {
                        return Err(invalid("fecPolicy.xorGeometry"));
                    }
                },
                _ => {},
            }
            Ok(())
        },
    }
}

/// Run every check of `config_check` on the parts.
pub fn check_config_parts(p: &StemConfigParts) -> (res: Result<(), StemError>)
    ensures
        res == config_check(*p),
{
    if p.schema_version != 1 || p.talkback_included {
        return Err(invalid("config.constants"));
    }
    match p.identity.validate() {
        Err(e) => return Err(e),
        Ok(()) => {},
    }
    if !positive_safe(p.topology_generation) || !positive_safe(p.binding_generation) || p.config_ref == 0
        || !positive_safe(p.config_generation) || !safe(p.effective_epoch) || p.key_epoch == 0
        || !valid_id(p.admission_decision_id.as_str()) {
        return Err(invalid("config.generations"));
    }
    match check_source_map(p) {
        Err(e) => return Err(e),
        Ok(()) => {},
    }
    match check_representation(p) {
        Err(e) => return Err(e),
        Ok(()) => {},
    }
    match check_latency(&p.latency_policy) {
        Err(e) => return Err(e),
        Ok(()) => {},
    }
    match check_fec(&p.fec_policy) {
        Err(e) => return Err(e),
        Ok(()) => {},
    }
    if !(576 <= p.carrier.max_datagram_bytes && p.carrier.max_datagram_bytes <= 1_500) || p.carrier.fragmentation_required {
        return Err(invalid("carrier"));
    }
    Ok(())
}


/// `i` is the first index of a source with ref `r`.
pub open spec fn first_ref_index(ss: Seq<SourceDefinition>, r: u16, i: int) -> bool {
    &&& 0 <= i < ss.len()
    &&& ss[i].source_ref == r
    &&& forall|k: int| 0 <= k < i ==> #[trigger] ss[k].source_ref != r
}

/// The first source with ref `r`.
pub open spec fn spec_source_for_ref(ss: Seq<SourceDefinition>, r: u16) -> Option<SourceDefinition> {
    if exists|i: int| first_ref_index(ss, r, i) {
        Some(ss[choose|i: int| first_ref_index(ss, r, i)])
    } else {
        None
    }
}

/// `i` is the first index of a source with id `id`.
pub open spec fn first_id_index(ss: Seq<SourceDefinition>, id: Seq<char>, i: int) -> bool {
    &&& 0 <= i < ss.len()
    &&& ss[i].source_id@ == id
    &&& forall|k: int| 0 <= k < i ==> #[trigger] ss[k].source_id@ != id
}

/// The first source with id `id`.
pub open spec fn spec_source_for_id(ss: Seq<SourceDefinition>, id: Seq<char>) -> Option<SourceDefinition> {
    if exists|i: int| first_id_index(ss, id, i) {
        Some(ss[choose|i: int| first_id_index(ss, id, i)])
    } else {
        None
    }
}

/// A source takes part in the stream: it is listed among the priority stems in
/// `PriorityStems` mode, and is any source of the map in the other modes.
pub open spec fn source_admitted(p: StemConfigParts, id: Seq<char>) -> bool {
    match p.representation.mode {
        RepresentationMode::PriorityStems => p.representation.priority_source_ids is Some
            && contains_text(p.representation.priority_source_ids->0@, id),
        _ => has_source_id(p.source_map.sources@, id),
    }
}

/// The admitted sources, in source-map order.
pub open spec fn spec_expected_sources(p: StemConfigParts) -> Seq<SourceDefinition> {
    p.source_map.sources@.filter(|s: SourceDefinition| source_admitted(p, s.source_id@))
}

/// The encoding that an admitted source uses.
pub open spec fn spec_encoding_for_source(p: StemConfigParts, id: Seq<char>) -> Option<StemEncoding> {
    if !source_admitted(p, id) {
        None
    } else {
        match p.representation.mode {
            RepresentationMode::PcmS24le => Some(StemEncoding::PcmS24le),
            RepresentationMode::FlacS24le => Some(StemEncoding::FlacS24le),
            RepresentationMode::OpusStems => Some(StemEncoding::Opus),
            RepresentationMode::PriorityStems => match p.representation.priority_encoding {
                Some(e) => Some(priority_stem_encoding(e)),
                None => None,
            },
        }
    }
}

/// Source symbols per group: the configured count, 1 without FEC.
pub open spec fn spec_source_symbols(p: StemConfigParts) -> u16 {
    match p.fec_policy.source_symbols {
        Some(v) => v,
        None => 1,
    }
}

/// Repair symbols per group: the configured count, 0 without FEC.
pub open spec fn spec_repair_symbols(p: StemConfigParts) -> u16 {
    match p.fec_policy.repair_symbols {
        Some(v) => v,
        None => 0,
    }
}

impl AuthoritativeStemConfig {
    #[verifier::type_invariant]
    closed spec fn is_valid(self) -> bool {
        config_check(self.parts) is Ok
    }

    /// Semantically validate the parts of one authenticated reliable-control value.
    pub fn from_parts(parts: StemConfigParts) -> (res: Result<Self, StemError>)
        ensures
            match res {
                Ok(config) => config@ == parts && config_check(parts) is Ok,
                Err(e) => config_check(parts) == Err::<(), StemError>(e),
            },
    {
        match check_config_parts(&parts) {
            Ok(()) => Ok(AuthoritativeStemConfig { parts }),
            Err(e) => Err(e),
        }
    }

    /// All fields of the config, which always pass `config_check`.
    pub fn parts(&self) -> (res: &StemConfigParts)
        ensures
            *res == self@,
            config_check(self@) is Ok,
    {
        proof {
            use_type_invariant(self);
        }
        &self.parts
    }

    pub fn identity(&self) -> (res: &CompositeIdentity)
        ensures
            *res == self@.identity,
    {
        &self.parts.identity
    }

    pub fn topology_generation(&self) -> (res: u64)
        ensures
            res == self@.topology_generation,
    {
        self.parts.topology_generation
    }

    pub fn binding_generation(&self) -> (res: u64)
        ensures
            res == self@.binding_generation,
    {
        self.parts.binding_generation
    }

    pub fn config_ref(&self) -> (res: u32)
        ensures
            res == self@.config_ref,
    {
        self.parts.config_ref
    }

    pub fn config_generation(&self) -> (res: u64)
        ensures
            res == self@.config_generation,
    {
        self.parts.config_generation
    }

    pub fn effective_epoch(&self) -> (res: u64)
        ensures
            res == self@.effective_epoch,
            spec_safe(res),
    {
        proof {
            use_type_invariant(self);
        }
        self.parts.effective_epoch
    }

    pub fn source_map_version(&self) -> (res: u64)
        ensures
            res == self@.source_map.version,
    {
        self.parts.source_map.version
    }

    pub fn source_clock_id(&self) -> (res: &str)
        ensures
            res@ == self@.source_map.source_clock_id@,
    {
        self.parts.source_map.source_clock_id.as_str()
    }

    pub fn sample_rate(&self) -> (res: u32)
        ensures
            res == self@.source_map.sample_rate,
    {
        self.parts.source_map.sample_rate
    }

    pub fn frame_samples(&self) -> (res: u32)
        ensures
            res == self@.source_map.frame_samples,
            1 <= res <= 4_096,
    {
        proof {
            use_type_invariant(self);
        }
        self.parts.source_map.frame_samples
    }

    pub fn representation_mode(&self) -> (res: RepresentationMode)
        ensures
            res == self@.representation.mode,
    {
        self.parts.representation.mode
    }

    pub fn fec_strategy(&self) -> (res: FecStrategy)
        ensures
            res == self@.fec_policy.strategy,
    {
        self.parts.fec_policy.strategy
    }

    pub fn source_symbols(&self) -> (res: u16)
        ensures
            res == spec_source_symbols(self@),
    {
        match self.parts.fec_policy.source_symbols {
            Some(value) => value,
            None => 1,
        }
    }

    pub fn repair_symbols(&self) -> (res: u16)
        ensures
            res == spec_repair_symbols(self@),
    {
        match self.parts.fec_policy.repair_symbols {
            Some(value) => value,
            None => 0,
        }
    }

    pub fn carrier(&self) -> (res: &CarrierProfile)
        ensures
            *res == self@.carrier,
    {
        &self.parts.carrier
    }

    pub fn key_epoch(&self) -> (res: u32)
        ensures
            res == self@.key_epoch,
    {
        self.parts.key_epoch
    }

    pub fn aggregation_deadline_microseconds(&self) -> (res: u32)
        ensures
            res == self@.latency_policy.aggregation_deadline_microseconds,
    {
        self.parts.latency_policy.aggregation_deadline_microseconds
    }

    pub fn sources(&self) -> (res: &[SourceDefinition])
        ensures
            res@ == self@.source_map.sources@,
    {
        self.parts.source_map.sources.as_slice()
    }

    pub fn source_for_ref(&self, source_ref: u16) -> (res: Option<&SourceDefinition>)
        ensures
            match res {
                Some(s) => spec_source_for_ref(self@.source_map.sources@, source_ref) == Some(*s),
                None => spec_source_for_ref(self@.source_map.sources@, source_ref) is None,
            },
    {
        let ss = &self.parts.source_map.sources;
        let mut i: usize = 0;
        while i < ss.len()
            invariant
                ss == self@.source_map.sources,
                0 <= i <= ss@.len(),
                forall|k: int| 0 <= k < i ==> #[trigger] ss@[k].source_ref != source_ref,
            decreases ss@.len() - i,
        {
            if ss[i].source_ref == source_ref {
                proof {
                    assert(first_ref_index(ss@, source_ref, i as int));
                    let j = choose|j: int| first_ref_index(ss@, source_ref, j);
                    assert(j == i) by {
                        if j < i {
                            assert(ss@[j].source_ref != source_ref);
                        } else if j > i {
                            assert(ss@[i as int].source_ref != source_ref);
                        }
                    }
                }
                return Some(&ss[i]);
            }
            i = i + 1;
        }
        None
    }

    pub fn source_for_id(&self, source_id: &str) -> (res: Option<&SourceDefinition>)
        ensures
            match res {
                Some(s) => spec_source_for_id(self@.source_map.sources@, source_id@) == Some(*s),
                None => spec_source_for_id(self@.source_map.sources@, source_id@) is None,
            },
    {
        let ss = &self.parts.source_map.sources;
        let mut i: usize = 0;
        while i < ss.len()
            invariant
                ss == self@.source_map.sources,
                0 <= i <= ss@.len(),
                forall|k: int| 0 <= k < i ==> #[trigger] ss@[k].source_id@ != source_id@,
            decreases ss@.len() - i,
        {
            if str_equal(ss[i].source_id.as_str(), source_id) {
                proof {
                    assert(first_id_index(ss@, source_id@, i as int));
                    let j = choose|j: int| first_id_index(ss@, source_id@, j);
                    assert(j == i) by {
                        if j < i {
                            assert(ss@[j].source_id@ != source_id@);
                        } else if j > i {
                            assert(ss@[i as int].source_id@ != source_id@);
                        }
                    }
                }
                return Some(&ss[i]);
            }
            i = i + 1;
        }
        None
    }

    pub fn source_is_admitted(&self, source_id: &str) -> (res: bool)
        ensures
            res == source_admitted(self@, source_id@),
    {
        match self.parts.representation.mode {
            RepresentationMode::PriorityStems => match &self.parts.representation.priority_source_ids {
                Some(ids) => contains_str(ids, source_id),
                None => false,
            },
            _ => source_id_present(&self.parts.source_map.sources, source_id),
        }
    }

    pub fn expected_sources(&self) -> (res: Vec<&SourceDefinition>)
        ensures
            res@.len() == spec_expected_sources(self@).len(),
            forall|i: int| 0 <= i < res@.len() ==> *(#[trigger] res@[i]) == spec_expected_sources(self@)[i],
    {
        let ss = &self.parts.source_map.sources;
        let ghost pred = |s: SourceDefinition| source_admitted(self@, s.source_id@);
        let mut res: Vec<&SourceDefinition> = Vec::new();
        let mut i: usize = 0;
        while i < ss.len()
            invariant
                ss == self@.source_map.sources,
                0 <= i <= ss@.len(),
                pred == (|s: SourceDefinition| source_admitted(self@, s.source_id@)),
                res@.len() == ss@.take(i as int).filter(pred).len(),
                forall|j: int| 0 <= j < res@.len() ==> *(#[trigger] res@[j]) == ss@.take(i as int).filter(pred)[j],
            decreases ss@.len() - i,
        {
            proof {
                reveal_with_fuel(Seq::<_>::filter, 1);
                assert(ss@.take(i + 1).drop_last() =~= ss@.take(i as int));
            }
            if self.source_is_admitted(ss[i].source_id.as_str()) {
                res.push(&ss[i]);
            }
            i = i + 1;
        }
        assert(ss@.take(ss@.len() as int) =~= ss@);
        res
    }

    pub fn encoding_for_source(&self, source_id: &str) -> (res: Option<StemEncoding>)
        ensures
            res == spec_encoding_for_source(self@, source_id@),
    {
        if !self.source_is_admitted(source_id) {
            return None;
        }
        match self.parts.representation.mode {
            RepresentationMode::PcmS24le => Some(StemEncoding::PcmS24le),
            RepresentationMode::FlacS24le => Some(StemEncoding::FlacS24le),
            RepresentationMode::OpusStems => Some(StemEncoding::Opus),
            RepresentationMode::PriorityStems => match self.parts.representation.priority_encoding {
                Some(e) => Some(e.stem_encoding()),
                None => None,
            },
        }
    }
}


proof fn lemma_sources_entries_ok(ss: Seq<SourceDefinition>, n: int)
    requires
        sources_check(ss, n) is Ok,
    ensures
        forall|i: int| 0 <= i < n ==> #[trigger] source_entry_check(ss, i) is Ok,
    decreases n,
{
    if n > 0 {
        lemma_sources_entries_ok(ss, n - 1);
    }
}

proof fn lemma_channels_entries_ok(cs: Seq<ChannelDefinition>, n: int)
    requires
        channels_check(cs, n) is Ok,
    ensures
        forall|j: int| 0 <= j < n ==> #[trigger] channel_check(cs, j) is Ok,
    decreases n,
{
    if n > 0 {
        lemma_channels_entries_ok(cs, n - 1);
    }
}

/// A valid channel layout: its count is the number of its channels, from 1
/// to 128, the count a named layout fixes, and its channels are in order
/// with distinct ids.
pub open spec fn layout_well_formed(layout: ChannelLayout) -> bool {
    let cs = layout.channels@;
    &&& layout.channel_count == cs.len()
    &&& 1 <= layout.channel_count <= 128
    &&& (layout_channel_count(layout.layout) matches Some(n) ==> n == layout.channel_count)
    &&& forall|j: int| 0 <= j < cs.len() ==> (#[trigger] cs[j]).order == j
    &&& forall|a: int, b: int| 0 <= a < b < cs.len() ==> (#[trigger] cs[a]).channel_id@ != (#[trigger] cs[b]).channel_id@
}

/// A layout that passes its checks is well formed.
pub proof fn law_valid_layout_well_formed(layout: ChannelLayout)
    requires
        layout_check(layout) is Ok,
    ensures
        layout_well_formed(layout),
{
    let cs = layout.channels@;
    lemma_channels_entries_ok(cs, cs.len() as int);
    assert forall|j: int| 0 <= j < cs.len() implies (#[trigger] cs[j]).order == j by {
        assert(channel_check(cs, j) is Ok);
    }
    assert forall|a: int, b: int| 0 <= a < b < cs.len() implies (#[trigger] cs[a]).channel_id@ != (#[trigger] cs[b]).channel_id@ by {
        assert(channel_check(cs, b) is Ok);
    }
}

/// In a valid config the source map holds 1 to 128 sources, each at its own
/// position as order, with a nonzero ref and a well-formed channel layout; no
/// two sources share an id or a ref, and looking a source up by its ref or
/// by its id finds it.
pub proof fn law_valid_config_sources(p: StemConfigParts)
    requires
        config_check(p) is Ok,
    ensures
        ({
            let ss = p.source_map.sources@;
            &&& 1 <= ss.len() <= 128
            &&& forall|i: int| 0 <= i < ss.len() ==> {
                &&& (#[trigger] ss[i]).order == i
                &&& ss[i].source_ref != 0
                &&& layout_well_formed(ss[i].channel_layout)
                &&& spec_source_for_ref(ss, ss[i].source_ref) == Some(ss[i])
                &&& spec_source_for_id(ss, ss[i].source_id@) == Some(ss[i])
            }
            &&& forall|a: int, b: int|
                0 <= a < b < ss.len() ==> (#[trigger] ss[a]).source_id@ != (#[trigger] ss[b]).source_id@
                    && ss[a].source_ref != ss[b].source_ref
        }),
{
    let ss = p.source_map.sources@;
    lemma_sources_entries_ok(ss, ss.len() as int);
    assert forall|a: int, b: int| 0 <= a < b < ss.len() implies (#[trigger] ss[a]).source_id@ != (#[trigger] ss[b]).source_id@
        && ss[a].source_ref != ss[b].source_ref by {
        assert(source_entry_check(ss, b) is Ok);
    }
    assert forall|i: int| 0 <= i < ss.len() implies {
        &&& (#[trigger] ss[i]).order == i
        &&& ss[i].source_ref != 0
        &&& layout_well_formed(ss[i].channel_layout)
        &&& spec_source_for_ref(ss, ss[i].source_ref) == Some(ss[i])
        &&& spec_source_for_id(ss, ss[i].source_id@) == Some(ss[i])
    } by {
        assert(source_entry_check(ss, i) is Ok);
        law_valid_layout_well_formed(ss[i].channel_layout);
        let r = ss[i].source_ref;
        let id = ss[i].source_id@;
        assert forall|k: int| 0 <= k < i implies #[trigger] ss[k].source_ref != r by {
            assert(source_entry_check(ss, i) is Ok);
        }
        assert forall|k: int| 0 <= k < i implies #[trigger] ss[k].source_id@ != id by {
            assert(source_entry_check(ss, i) is Ok);
        }
        assert(first_ref_index(ss, r, i));
        assert(first_id_index(ss, id, i));
        let c = choose|c: int| first_ref_index(ss, r, c);
        if c != i {
            if c < i {
                assert(ss[c].source_ref != r);
            } else {
                assert(ss[i].source_ref != r);
            }
        }
        let d = choose|d: int| first_id_index(ss, id, d);
        if d != i {
            if d < i {
                assert(ss[d].source_id@ != id);
            } else {
                assert(ss[i].source_id@ != id);
            }
        }
    }
}


/// A channel layout passes its checks exactly when it is of schema 1, has
/// from 1 to 128 channels, its count is the number of its channels, a named
/// layout has its fixed count (mono 1, stereo 2, LCR 3, quad 4, first-order
/// ambisonics 4, 5.1 six, 7.1 eight; a discrete layout any), and its
/// channels pass their own checks.
pub proof fn law_layout_check_fixes_named_counts(layout: ChannelLayout)
    ensures
        layout_check(layout) is Ok <==> {
            &&& layout.schema_version == 1
            &&& 1 <= layout.channel_count <= 128
            &&& layout.channel_count == layout.channels@.len()
            &&& match layout.layout {
                ChannelLayoutName::Mono => layout.channel_count == 1,
                ChannelLayoutName::Stereo => layout.channel_count == 2,
                ChannelLayoutName::Lcr => layout.channel_count == 3,
                ChannelLayoutName::Quad => layout.channel_count == 4,
                ChannelLayoutName::AmbisonicAcnSn3d => layout.channel_count == 4,
                ChannelLayoutName::FivePointOne => layout.channel_count == 6,
                ChannelLayoutName::SevenPointOne => layout.channel_count == 8,
                ChannelLayoutName::Discrete => true,
            }
            &&& channels_check(layout.channels@, layout.channels@.len() as int) is Ok
        },
{
}


/// The encoding the config gives a source: none for a source it does not
/// admit; for an admitted source, PCM s24le in the PCM mode, FLAC s24le in
/// the FLAC mode, Opus in the Opus-stems mode, and in the priority mode the
/// configured priority encoding (PCM to PCM s24le, FLAC to FLAC s24le, Opus
/// stems to Opus), none when none is configured.
pub proof fn law_source_encoding_by_mode(p: StemConfigParts, id: Seq<char>)
    ensures
        !source_admitted(p, id) ==> spec_encoding_for_source(p, id) is None,
        source_admitted(p, id) ==> spec_encoding_for_source(p, id) == match p.representation.mode {
            RepresentationMode::PcmS24le => Some(StemEncoding::PcmS24le),
            RepresentationMode::FlacS24le => Some(StemEncoding::FlacS24le),
            RepresentationMode::OpusStems => Some(StemEncoding::Opus),
            RepresentationMode::PriorityStems => match p.representation.priority_encoding {
                Some(PriorityEncoding::PcmS24le) => Some(StemEncoding::PcmS24le),
                Some(PriorityEncoding::FlacS24le) => Some(StemEncoding::FlacS24le),
                Some(PriorityEncoding::OpusStems) => Some(StemEncoding::Opus),
                None => None::<StemEncoding>,
            },
        },
        p.representation.mode != RepresentationMode::PriorityStems ==> (source_admitted(p, id) <==> exists|i: int|
            0 <= i < p.source_map.sources@.len() && #[trigger] p.source_map.sources@[i].source_id@ == id),
{
}


/// A latency policy passes exactly when its aggregation deadline is from 100
/// to 5000 microseconds, its receiver allowance is 10, 20, 25 or 75
/// milliseconds, and released epochs are immutable.
pub proof fn law_latency_policy_accepted(l: LatencyPolicy)
    ensures
        latency_check(l) is Ok <==> (100 <= l.aggregation_deadline_microseconds <= 5_000 && (
        l.receiver_allowance_milliseconds == 10 || l.receiver_allowance_milliseconds == 20
            || l.receiver_allowance_milliseconds == 25 || l.receiver_allowance_milliseconds == 75)
            && !l.released_epoch_mutable),
{
}

/// An FEC policy passes exactly when it is bound to its deadline epoch, its
/// ceiling is a finite percentage from 0 to 100, and either it has no FEC and
/// no symbol counts, or it has positive source and repair counts that the
/// ceiling admits, with exactly one of each for duplication and one repair
/// symbol for XOR (Reed-Solomon and RaptorQ take any positive counts).
pub proof fn law_fec_policy_accepted(f: FecPolicy)
    ensures
        fec_check(f) is Ok <==> {
            &&& f.same_deadline_epoch_only
            &&& (f.max_repair_overhead.percent_bits <= 0x4059_0000_0000_0000
                || f.max_repair_overhead.percent_bits == 0x8000_0000_0000_0000)
            &&& if f.strategy == FecStrategy::NoFec {
                f.source_symbols is None && f.repair_symbols is None
            } else {
                &&& f.source_symbols matches Some(source) && source > 0
                &&& f.repair_symbols matches Some(repair) && repair > 0
                &&& f.max_repair_overhead.admits_configured_symbols
                &&& f.strategy == FecStrategy::Duplicate ==> f.source_symbols == Some(1u16) && f.repair_symbols == Some(
                    1u16,
                )
                &&& f.strategy == FecStrategy::Xor ==> f.repair_symbols == Some(1u16)
            }
        },
{
}

/// A representation passes exactly when it has the source map's sample
/// rate and frame size and each source decodes on its own, and its coding
/// fits its mode: PCM or FLAC with the s24 interleaved layout and no Opus
/// frame duration; Opus with a frame of 2.5, 5, 10 or 20 ms and no PCM
/// layout; neither of them naming priority settings; and the priority mode
/// with an encoding, 1 to 128 strictly sorted priority ids each naming a
/// source of the map, and the coding its encoding calls for.
pub proof fn law_representation_accepted(p: StemConfigParts)
    ensures
        ({
            let r = p.representation;
            let pcm = r.pcm_format == Some(PcmFormat::S24leInterleavedV1) && r.opus_frame_duration_microseconds is None;
            let opus = r.pcm_format is None && (r.opus_frame_duration_microseconds == Some(2_500u32)
                || r.opus_frame_duration_microseconds == Some(5_000u32) || r.opus_frame_duration_microseconds == Some(
                10_000u32,
            ) || r.opus_frame_duration_microseconds == Some(20_000u32));
            representation_check(p) is Ok <==> {
                &&& r.sample_rate == p.source_map.sample_rate
                &&& r.frame_samples == p.source_map.frame_samples
                &&& r.independently_decodable_per_source
                &&& match r.mode {
                    RepresentationMode::PcmS24le | RepresentationMode::FlacS24le => pcm && r.priority_encoding is None
                        && r.priority_source_ids is None,
                    RepresentationMode::OpusStems => opus && r.priority_encoding is None && r.priority_source_ids is None,
                    RepresentationMode::PriorityStems => {
                        &&& r.priority_source_ids matches Some(ids) && 1 <= ids@.len() <= 128 && strictly_sorted(ids@)
                            && forall|i: int| 0 <= i < ids@.len() ==> has_source_id(p.source_map.sources@, #[trigger] ids@[i]@)
                        &&& match r.priority_encoding {
                            Some(PriorityEncoding::OpusStems) => opus,
                            Some(_) => pcm,
                            None => false,
                        }
                    },
                }
            }
        }),
{
}


/// An identity passes exactly when its tenant, session and contributor ids
/// are valid and its session epoch is a positive safe integer.
pub proof fn law_identity_accepted(identity: CompositeIdentity)
    ensures
        identity_check(identity) is Ok <==> (valid_id_chars(identity.tenant_id@) && valid_id_chars(
            identity.session_id@,
        ) && 1 <= identity.session_epoch <= 9_007_199_254_740_991 && valid_id_chars(identity.contributor_id@)),
{
}

/// The channels of a layout pass exactly when each has a valid id that no
/// earlier channel has, its position as its order, and no label or one of
/// 1 to 80 characters.
pub proof fn law_channels_accepted(cs: Seq<ChannelDefinition>, n: int)
    requires
        0 <= n <= cs.len(),
    ensures
        channels_check(cs, n) is Ok <==> forall|j: int|
            0 <= j < n ==> {
                &&& valid_id_chars((#[trigger] cs[j]).channel_id@)
                &&& forall|k: int| 0 <= k < j ==> (#[trigger] cs[k]).channel_id@ != cs[j].channel_id@
                &&& cs[j].order == j
                &&& (cs[j].label matches Some(l) ==> 1 <= l@.len() <= 80)
            },
    decreases n,
{
    if n > 0 {
        law_channels_accepted(cs, n - 1);
        if channels_check(cs, n) is Ok {
            assert(channel_check(cs, n - 1) is Ok);
        }
        if !(channels_check(cs, n) is Ok) && channels_check(cs, n - 1) is Ok {
            assert(channel_check(cs, n - 1) is Err);
        }
    }
}

/// A source passes its own checks exactly when its id is valid, its ref
/// nonzero, its label 1 to 160 characters, its order its position, its
/// priority absent or at most 1000, and its layout passes.
pub proof fn law_source_accepted(s: SourceDefinition, expected_order: int)
    ensures
        source_check(s, expected_order) is Ok <==> {
            &&& valid_id_chars(s.source_id@)
            &&& s.source_ref != 0
            &&& 1 <= s.label@.len() <= 160
            &&& s.order == expected_order
            &&& (s.priority matches Some(v) ==> v <= 1000)
            &&& layout_check(s.channel_layout) is Ok
        },
{
}

proof fn lemma_sources_ok_iff(ss: Seq<SourceDefinition>, n: int)
    requires
        0 <= n,
    ensures
        sources_check(ss, n) is Ok <==> forall|i: int| 0 <= i < n ==> #[trigger] source_entry_check(ss, i) is Ok,
    decreases n,
{
    if n > 0 {
        lemma_sources_ok_iff(ss, n - 1);
    }
}

/// A source map passes exactly when it is of schema 1 without talkback, is
/// for the config's identity, generation and effective epoch, has a version
/// from 1 to the largest 32-bit value, a valid clock id, a sample rate from
/// 8 to 384 kHz, a frame of 1 to 4096 samples and 1 to 128 sources, each of
/// which passes its own checks at its position and repeats no earlier id or
/// ref.
pub proof fn law_source_map_accepted(p: StemConfigParts)
    ensures
        source_map_check(p) is Ok <==> {
            let m = p.source_map;
            let ss = m.sources@;
            &&& m.schema_version == 1 && !m.talkback_included
            &&& same_identity(m.identity, p.identity)
            &&& m.config_generation == p.config_generation && m.effective_epoch == p.effective_epoch
            &&& 1 <= m.version <= 4_294_967_295
            &&& valid_id_chars(m.source_clock_id@)
            &&& 8_000 <= m.sample_rate <= 384_000
            &&& 1 <= m.frame_samples <= 4_096
            &&& 1 <= ss.len() <= 128
            &&& forall|i: int|
                0 <= i < ss.len() ==> source_check(#[trigger] ss[i], i) is Ok && forall|k: int|
                    0 <= k < i ==> ss[k].source_id@ != ss[i].source_id@ && ss[k].source_ref != ss[i].source_ref
        },
{
    let ss = p.source_map.sources@;
    lemma_sources_ok_iff(ss, ss.len() as int);
    if sources_check(ss, ss.len() as int) is Ok {
        assert forall|i: int| 0 <= i < ss.len() implies source_check(#[trigger] ss[i], i) is Ok && forall|k: int|
            0 <= k < i ==> ss[k].source_id@ != ss[i].source_id@ && ss[k].source_ref != ss[i].source_ref by {
            assert(source_entry_check(ss, i) is Ok);
        }
    }
    if forall|i: int|
        0 <= i < ss.len() ==> source_check(#[trigger] ss[i], i) is Ok && forall|k: int|
            0 <= k < i ==> ss[k].source_id@ != ss[i].source_id@ && ss[k].source_ref != ss[i].source_ref {
        assert forall|i: int| 0 <= i < ss.len() implies #[trigger] source_entry_check(ss, i) is Ok by {
            assert(source_check(ss[i], i) is Ok);
            if !(source_entry_check(ss, i) is Ok) {
                let k = choose|k: int|
                    #![trigger ss[k]]
                    0 <= k < i && (ss[k].source_id@ == ss[i].source_id@ || ss[k].source_ref == ss[i].source_ref);
                assert(ss[k].source_id@ != ss[i].source_id@ && ss[k].source_ref != ss[i].source_ref);
            }
        }
    }
}

/// A config passes exactly when it is of schema 1 without talkback, its
/// identity passes, its generations are positive safe integers (its
/// effective epoch a safe integer), its config ref and key epoch nonzero, its
/// admission decision id valid, its source map, representation, latency and
/// FEC policies pass, and its carrier needs no fragmentation and has an MTU
/// from 576 to 1500 bytes.
pub proof fn law_config_accepted(p: StemConfigParts)
    ensures
        config_check(p) is Ok <==> {
            &&& p.schema_version == 1 && !p.talkback_included
            &&& identity_check(p.identity) is Ok
            &&& 1 <= p.topology_generation <= 9_007_199_254_740_991
            &&& 1 <= p.binding_generation <= 9_007_199_254_740_991
            &&& 1 <= p.config_generation <= 9_007_199_254_740_991
            &&& p.effective_epoch <= 9_007_199_254_740_991
            &&& p.config_ref != 0 && p.key_epoch != 0
            &&& valid_id_chars(p.admission_decision_id@)
            &&& source_map_check(p) is Ok
            &&& representation_check(p) is Ok
            &&& latency_check(p.latency_policy) is Ok
            &&& fec_check(p.fec_policy) is Ok
            &&& 576 <= p.carrier.max_datagram_bytes <= 1_500
            &&& !p.carrier.fragmentation_required
        },
{
}


proof fn lemma_filter_keeps_all(ss: Seq<SourceDefinition>, pred: spec_fn(SourceDefinition) -> bool)
    requires
        forall|i: int| 0 <= i < ss.len() ==> pred(#[trigger] ss[i]),
    ensures
        ss.filter(pred) == ss,
    decreases ss.len(),
{
    reveal(Seq::filter);
    if ss.len() > 0 {
        let front = ss.drop_last();
        assert forall|i: int| 0 <= i < front.len() implies pred(#[trigger] front[i]) by {
            assert(front[i] == ss[i]);
        }
        lemma_filter_keeps_all(front, pred);
        assert(pred(ss[ss.len() - 1]));
        assert(front.push(ss.last()) =~= ss);
    }
}

/// Outside the priority mode every source of the map is expected, in map
/// order; in the priority mode exactly the sources whose ids the priority
/// list names are.
pub proof fn law_expected_sources(p: StemConfigParts)
    ensures
        p.representation.mode != RepresentationMode::PriorityStems ==> spec_expected_sources(p)
            == p.source_map.sources@,
        forall|s: SourceDefinition|
            #[trigger] spec_expected_sources(p).contains(s) <==> (p.source_map.sources@.contains(s) && (
            p.representation.mode == RepresentationMode::PriorityStems ==> (p.representation.priority_source_ids matches Some(
                ids,
            ) && exists|i: int| 0 <= i < ids@.len() && #[trigger] ids@[i]@ == s.source_id@))),
{
    let ss = p.source_map.sources@;
    let pred = |s: SourceDefinition| source_admitted(p, s.source_id@);
    if p.representation.mode != RepresentationMode::PriorityStems {
        assert forall|i: int| 0 <= i < ss.len() implies pred(#[trigger] ss[i]) by {
            assert(has_source_id(ss, ss[i].source_id@));
        }
        lemma_filter_keeps_all(ss, pred);
    }
    ss.filter_lemma(pred);
    assert forall|s: SourceDefinition| #[trigger] spec_expected_sources(p).contains(s) implies ss.contains(s) && pred(s) by {
        let k = choose|k: int| 0 <= k < ss.filter(pred).len() && ss.filter(pred)[k] == s;
        ss.lemma_filter_contains_rev(pred, s);
    }
    assert forall|s: SourceDefinition| ss.contains(s) && pred(s) implies #[trigger] spec_expected_sources(p).contains(s) by {
        let k = choose|k: int| 0 <= k < ss.len() && ss[k] == s;
        ss.lemma_filter_contains(pred, k);
    }
    assert forall|s: SourceDefinition| ss.contains(s) implies pred(s) == (p.representation.mode == RepresentationMode::PriorityStems
        ==> (p.representation.priority_source_ids matches Some(ids) && exists|i: int|
        0 <= i < ids@.len() && #[trigger] ids@[i]@ == s.source_id@)) by {
        if p.representation.mode != RepresentationMode::PriorityStems {
            let k = choose|k: int| 0 <= k < ss.len() && ss[k] == s;
            assert(has_source_id(ss, ss[k].source_id@));
        }
    }
}

} // verus!




