use vstd::prelude::*;
use vstd::string::StringExecFns;

use crate::common::{find_first, lemma_find_first, lemma_find_first_is, safe, spec_safe, str_equal};
use crate::config::{
    source_admitted, spec_encoding_for_source, spec_expected_sources, spec_source_for_ref,
    AuthoritativeStemConfig, CompositeIdentity, SourceDefinition, StemConfigParts, StemEncoding,
};
use crate::error::{stem_error, StemError, StemErrorCode};
use crate::wire::{GroupView, RecoveredStemGroup};
use crate::assembler_outcomes::{assembler_well_formed, law_new_assembler_well_formed, law_well_formed_step, AssemblerCall};

verus! {

pub const DEFAULT_MAX_PENDING_EPOCHS: usize = 64;

pub const RELEASED_WINDOW_EPOCHS: usize = 256;

#[derive(Clone, Copy, Debug, PartialEq, Eq, Structural)]
pub enum MissingReason {
    NotPublished,
    AggregationDeadline,
    DecodeError,
    Corrupt,
    Unauthorized,
    Unknown,
}

#[derive(Clone, Copy, Debug, PartialEq, Eq, Structural)]
pub enum SourceStatus {
    Present,
    MissingRequired,
    MissingOptional,
}

#[derive(Clone, Copy, Debug, PartialEq, Eq, Structural)]
pub enum ReleaseReason {
    Complete,
    AggregationDeadline,
}

/// The abstract content of a released source group.
pub struct ReleasedGroupView {
    pub source_id: Seq<char>,
    pub required: bool,
    pub channel_count: u16,
    pub status: SourceStatus,
    pub encoding: Option<StemEncoding>,
    pub group_sequence: Option<u64>,
    pub payload: Option<Seq<u8>>,
    pub missing_reason: Option<MissingReason>,
}

/// One source of a released epoch: present with its payload, or missing with a reason.
#[derive(Clone, Debug, PartialEq, Eq)]
pub struct ReleasedGroup {
    source_id: String,
    required: bool,
    channel_count: u16,
    status: SourceStatus,
    encoding: Option<StemEncoding>,
    group_sequence: Option<u64>,
    payload: Option<Vec<u8>>,
    missing_reason: Option<MissingReason>,
}

pub open spec fn payload_view(payload: Option<Vec<u8>>) -> Option<Seq<u8>> {
    match payload {
        Some(p) => Some(p@),
        None => None,
    }
}

impl View for ReleasedGroup {
    type V = ReleasedGroupView;

    closed spec fn view(&self) -> ReleasedGroupView {
        ReleasedGroupView {
            source_id: self.source_id@,
            required: self.required,
            channel_count: self.channel_count,
            status: self.status,
            encoding: self.encoding,
            group_sequence: self.group_sequence,
            payload: payload_view(self.payload),
            missing_reason: self.missing_reason,
        }
    }
}

impl ReleasedGroup {
    pub fn source_id(&self) -> (res: &str)
        ensures
            res@ == self@.source_id,
    {
        self.source_id.as_str()
    }

    pub fn required(&self) -> (res: bool)
        ensures
            res == self@.required,
    {
        self.required
    }

    pub fn channel_count(&self) -> (res: u16)
        ensures
            res == self@.channel_count,
    {
        self.channel_count
    }

    pub fn status(&self) -> (res: SourceStatus)
        ensures
            res == self@.status,
    {
        self.status
    }

    pub fn encoding(&self) -> (res: Option<StemEncoding>)
        ensures
            res == self@.encoding,
    {
        self.encoding
    }

    pub fn group_sequence(&self) -> (res: Option<u64>)
        ensures
            res == self@.group_sequence,
    {
        self.group_sequence
    }

    pub fn payload(&self) -> (res: Option<&[u8]>)
        ensures
            match res {
                Some(p) => self@.payload == Some(p@),
                None => self@.payload is None,
            },
    {
        match &self.payload {
            Some(p) => Some(p.as_slice()),
            None => None,
        }
    }

    pub fn missing_reason(&self) -> (res: Option<MissingReason>)
        ensures
            res == self@.missing_reason,
    {
        self.missing_reason
    }
}

/// The abstract content of a released epoch.
pub struct ReleasedEpochView {
    pub identity: CompositeIdentity,
    pub config_generation: u64,
    pub source_map_version: u64,
    pub key_epoch: u32,
    pub source_clock_id: Seq<char>,
    pub epoch_number: u64,
    pub remote_pts: u64,
    pub frame_samples: u32,
    pub groups: Seq<ReleasedGroupView>,
    pub release_reason: ReleaseReason,
    pub released_at_host_time_nanoseconds: u64,
}

/// One immutable released epoch: every expected source in source-map order.
#[derive(Clone, Debug, PartialEq, Eq)]
pub struct ReleasedEpoch {
    identity: CompositeIdentity,
    config_generation: u64,
    source_map_version: u64,
    key_epoch: u32,
    source_clock_id: String,
    epoch_number: u64,
    remote_pts: u64,
    frame_samples: u32,
    groups: Vec<ReleasedGroup>,
    release_reason: ReleaseReason,
    released_at_host_time_nanoseconds: u64,
}

impl View for ReleasedEpoch {
    type V = ReleasedEpochView;

    closed spec fn view(&self) -> ReleasedEpochView {
        ReleasedEpochView {
            identity: self.identity,
            config_generation: self.config_generation,
            source_map_version: self.source_map_version,
            key_epoch: self.key_epoch,
            source_clock_id: self.source_clock_id@,
            epoch_number: self.epoch_number,
            remote_pts: self.remote_pts,
            frame_samples: self.frame_samples,
            groups: self.groups@.map_values(|g: ReleasedGroup| g@),
            release_reason: self.release_reason,
            released_at_host_time_nanoseconds: self.released_at_host_time_nanoseconds,
        }
    }
}

/// Released by completion with every expected source present.
pub open spec fn spec_is_safe_complete(r: ReleasedEpochView) -> bool {
    r.release_reason == ReleaseReason::Complete
        && forall|i: int| 0 <= i < r.groups.len() ==> (#[trigger] r.groups[i]).status == SourceStatus::Present
}

impl ReleasedEpoch {
    pub fn identity(&self) -> (res: &CompositeIdentity)
        ensures
            *res == self@.identity,
    {
        &self.identity
    }

    pub fn config_generation(&self) -> (res: u64)
        ensures
            res == self@.config_generation,
    {
        self.config_generation
    }

    pub fn source_map_version(&self) -> (res: u64)
        ensures
            res == self@.source_map_version,
    {
        self.source_map_version
    }

    pub fn key_epoch(&self) -> (res: u32)
        ensures
            res == self@.key_epoch,
    {
        self.key_epoch
    }

    pub fn source_clock_id(&self) -> (res: &str)
        ensures
            res@ == self@.source_clock_id,
    {
        self.source_clock_id.as_str()
    }

    pub fn epoch_number(&self) -> (res: u64)
        ensures
            res == self@.epoch_number,
    {
        self.epoch_number
    }

    pub fn remote_pts(&self) -> (res: u64)
        ensures
            res == self@.remote_pts,
    {
        self.remote_pts
    }

    pub fn frame_samples(&self) -> (res: u32)
        ensures
            res == self@.frame_samples,
    {
        self.frame_samples
    }

    pub fn groups(&self) -> (res: &[ReleasedGroup])
        ensures
            res@.map_values(|g: ReleasedGroup| g@) == self@.groups,
    {
        self.groups.as_slice()
    }

    pub fn release_reason(&self) -> (res: ReleaseReason)
        ensures
            res == self@.release_reason,
    {
        self.release_reason
    }

    pub fn released_at_host_time_nanoseconds(&self) -> (res: u64)
        ensures
            res == self@.released_at_host_time_nanoseconds,
    {
        self.released_at_host_time_nanoseconds
    }

    pub fn is_safe_complete(&self) -> (res: bool)
        ensures
            res == spec_is_safe_complete(self@),
    {
        if self.release_reason != ReleaseReason::Complete {
            return false;
        }
        let mut i: usize = 0;
        while i < self.groups.len()
            invariant
                0 <= i <= self.groups@.len(),
                self.release_reason == ReleaseReason::Complete,
                forall|k: int| 0 <= k < i ==> (#[trigger] self.groups@[k])@.status == SourceStatus::Present,
            decreases self.groups@.len() - i,
        {
            if self.groups[i].status != SourceStatus::Present {
                assert(self@.groups[i as int].status != SourceStatus::Present);
                return false;
            }
            i = i + 1;
        }
        assert forall|k: int| 0 <= k < self@.groups.len() implies (#[trigger] self@.groups[k]).status
            == SourceStatus::Present by {
            assert(self@.groups[k] == self.groups@[k]@);
        }
        true
    }
}

/// The outcome of offering a group or a missing-source report to the assembler.
#[derive(Clone, Debug, PartialEq, Eq)]
pub enum EpochInsert {
    Accepted,
    DuplicateDiscarded,
    LateDiscarded,
    Released(ReleasedEpoch),
}

pub enum InsertView {
    Accepted,
    DuplicateDiscarded,
    LateDiscarded,
    Released(ReleasedEpochView),
}

pub open spec fn insert_view(x: EpochInsert) -> InsertView {
    match x {
        EpochInsert::Accepted => InsertView::Accepted,
        EpochInsert::DuplicateDiscarded => InsertView::DuplicateDiscarded,
        EpochInsert::LateDiscarded => InsertView::LateDiscarded,
        EpochInsert::Released(r) => InsertView::Released(r@),
    }
}

pub open spec fn insert_result_view(res: Result<EpochInsert, StemError>) -> Result<InsertView, StemError> {
    match res {
        Ok(x) => Ok(insert_view(x)),
        Err(e) => Err(e),
    }
}

/// The abstract state of one pending epoch.
#[verifier::ext_equal]
pub struct PendingView {
    pub epoch_number: u64,
    pub remote_pts: u64,
    pub first_observed_host_time_nanoseconds: u64,
    pub groups: Seq<GroupView>,
    pub missing_reasons: Seq<(Seq<char>, MissingReason)>,
}

/// The abstract state of an assembler.
#[verifier::ext_equal]
pub struct AssemblerView {
    pub config: StemConfigParts,
    /// Pending epochs in ascending epoch order.
    pub pending: Seq<PendingView>,
    /// Released epochs above `next_contiguous_release`.
    pub released_recent: Seq<u64>,
    pub next_contiguous_release: u64,
    pub timeline_origin: Option<(u64, u64)>,
    /// Per source: the first (epoch, group sequence) seen.
    pub source_sequence_origins: Seq<(Seq<char>, u64, u64)>,
    pub last_host_time_nanoseconds: Option<u64>,
    pub max_pending_epochs: nat,
}

pub open spec fn has_epoch(epoch_number: u64) -> spec_fn(PendingView) -> bool {
    |p: PendingView| p.epoch_number == epoch_number
}

pub open spec fn at_or_after(epoch_number: u64) -> spec_fn(PendingView) -> bool {
    |p: PendingView| p.epoch_number >= epoch_number
}

pub open spec fn is_value(value: u64) -> spec_fn(u64) -> bool {
    |x: u64| x == value
}

pub open spec fn origin_for(source_id: Seq<char>) -> spec_fn((Seq<char>, u64, u64)) -> bool {
    |o: (Seq<char>, u64, u64)| o.0 == source_id
}

pub open spec fn group_for_source(source_id: Seq<char>) -> spec_fn(GroupView) -> bool {
    |g: GroupView| g.source_id == source_id
}

pub open spec fn group_for_ref(source_ref: u16) -> spec_fn(GroupView) -> bool {
    |g: GroupView| g.header.source_ref == source_ref
}

pub open spec fn reason_for(source_id: Seq<char>) -> spec_fn((Seq<char>, MissingReason)) -> bool {
    |m: (Seq<char>, MissingReason)| m.0 == source_id
}

pub open spec fn pending_at(ps: Seq<PendingView>, epoch_number: u64) -> Option<int> {
    find_first(ps, has_epoch(epoch_number))
}

/// Where a new pending epoch goes: before the first later one.
pub open spec fn pending_slot(ps: Seq<PendingView>, epoch_number: u64) -> int {
    match find_first(ps, at_or_after(epoch_number)) {
        Some(i) => i,
        None => ps.len() as int,
    }
}

pub open spec fn spec_was_released(s: AssemblerView, epoch_number: u64) -> bool {
    epoch_number < s.next_contiguous_release || s.released_recent.contains(epoch_number)
}

/// Host time must be a safe integer and must not go back.
pub open spec fn spec_observe(s: AssemblerView, t: u64) -> Result<AssemblerView, StemError> {
    if !spec_safe(t) || (s.last_host_time_nanoseconds is Some && t < s.last_host_time_nanoseconds->0) {
        Err(stem_error(StemErrorCode::ClockRegression, "hostTimeNanoseconds"))
    } else {
        Ok(AssemblerView { last_host_time_nanoseconds: Some(t), ..s })
    }
}

/// The epoch timeline: the first admitted (epoch, pts) fixes the origin, and
/// every epoch's pts is the origin's plus the epoch distance times the frame size.
pub open spec fn spec_timeline(s: AssemblerView, epoch_number: u64, remote_pts: u64) -> (AssemblerView, Result<(), StemError>) {
    if epoch_number < s.config.effective_epoch {
        (s, Err(stem_error(StemErrorCode::ConfigNotEffective, "epochNumber")))
    } else {
        let origin = match s.timeline_origin {
            Some(o) => o,
            None => (epoch_number, remote_pts),
        };
        let s2 = AssemblerView { timeline_origin: Some(origin), ..s };
        if origin.1 + (epoch_number - origin.0) * s.config.source_map.frame_samples != remote_pts {
            (s2, Err(stem_error(StemErrorCode::EpochGeometryMismatch, "remotePts")))
        } else {
            (s2, Ok(()))
        }
    }
}

pub open spec fn origin_at(origins: Seq<(Seq<char>, u64, u64)>, source_id: Seq<char>) -> Option<int> {
    find_first(origins, origin_for(source_id))
}

/// Per source, group sequences advance one per epoch from the first seen.
pub open spec fn spec_sequence(s: AssemblerView, source_id: Seq<char>, epoch_number: u64, group_sequence: u64) -> (AssemblerView, Result<(), StemError>) {
    let (origins, origin) = match origin_at(s.source_sequence_origins, source_id) {
        Some(i) => (s.source_sequence_origins, (s.source_sequence_origins[i].1, s.source_sequence_origins[i].2)),
        None => (s.source_sequence_origins.push((source_id, epoch_number, group_sequence)), (epoch_number, group_sequence)),
    };
    let s2 = AssemblerView { source_sequence_origins: origins, ..s };
    if origin.1 + (epoch_number - origin.0) != group_sequence {
        (s2, Err(stem_error(StemErrorCode::EpochGeometryMismatch, "groupSequence")))
    } else {
        (s2, Ok(()))
    }
}

/// A new pending epoch needs a free slot.
pub open spec fn spec_capacity(s: AssemblerView, epoch_number: u64) -> Result<(), StemError> {
    if pending_at(s.pending, epoch_number) is None && s.pending.len() >= s.max_pending_epochs {
        Err(stem_error(StemErrorCode::PendingEpochCapacity, "pendingEpochs"))
    } else {
        Ok(())
    }
}

/// The state with a pending entry for the epoch (created empty when absent).
pub open spec fn spec_with_entry(s: AssemblerView, epoch_number: u64, remote_pts: u64, t: u64) -> AssemblerView {
    match pending_at(s.pending, epoch_number) {
        Some(_) => s,
        None => AssemblerView {
            pending: s.pending.insert(
                pending_slot(s.pending, epoch_number),
                PendingView {
                    epoch_number,
                    remote_pts,
                    first_observed_host_time_nanoseconds: t,
                    groups: Seq::empty(),
                    missing_reasons: Seq::empty(),
                },
            ),
            ..s
        },
    }
}

/// A group agrees with the config on generations, geometry, source and encoding.
pub open spec fn group_binding_check(p: StemConfigParts, g: GroupView) -> Result<(), StemError> {
    let h = g.header;
    match spec_source_for_ref(p.source_map.sources@, h.source_ref) {
        None => Err(stem_error(StemErrorCode::UnknownSourceRef, "sourceRef")),
        Some(source) => if h.topology_generation != p.topology_generation || h.binding_generation
            != p.binding_generation || h.config_ref != p.config_ref || h.config_generation != p.config_generation
            || h.source_map_version != p.source_map.version || h.key_epoch != p.key_epoch || h.frame_samples
            != p.source_map.frame_samples || source.source_id@ != g.source_id || source.required != g.required
            || source.channel_layout.channel_count != g.channel_count || spec_encoding_for_source(
            p,
            source.source_id@,
        ) != Some(h.encoding) {
            Err(stem_error(StemErrorCode::EpochGeometryMismatch, "groupBinding"))
        } else {
            Ok(())
        },
    }
}

pub open spec fn group_with_source(groups: Seq<GroupView>, source_id: Seq<char>) -> Option<int> {
    find_first(groups, group_for_source(source_id))
}

pub open spec fn group_with_ref(groups: Seq<GroupView>, source_ref: u16) -> Option<int> {
    find_first(groups, group_for_ref(source_ref))
}

pub open spec fn reason_at(reasons: Seq<(Seq<char>, MissingReason)>, source_id: Seq<char>) -> Option<int> {
    find_first(reasons, reason_for(source_id))
}

pub open spec fn without_reason(reasons: Seq<(Seq<char>, MissingReason)>, source_id: Seq<char>) -> Seq<(Seq<char>, MissingReason)> {
    match reason_at(reasons, source_id) {
        Some(j) => reasons.remove(j),
        None => reasons,
    }
}

pub open spec fn with_reason(reasons: Seq<(Seq<char>, MissingReason)>, source_id: Seq<char>, reason: MissingReason) -> Seq<(Seq<char>, MissingReason)> {
    match reason_at(reasons, source_id) {
        Some(j) => reasons.update(j, (reasons[j].0, reason)),
        None => reasons.push((source_id, reason)),
    }
}

/// Every expected source has a group in the pending epoch.
pub open spec fn pending_complete(p: StemConfigParts, pe: PendingView) -> bool {
    forall|i: int|
        0 <= i < spec_expected_sources(p).len() ==> group_with_source(
            pe.groups,
            (#[trigger] spec_expected_sources(p)[i]).source_id@,
        ) is Some
}

/// The released state of one expected source.
pub open spec fn spec_released_group(source: SourceDefinition, pe: PendingView) -> ReleasedGroupView {
    match group_with_source(pe.groups, source.source_id@) {
        Some(i) => ReleasedGroupView {
            source_id: source.source_id@,
            required: source.required,
            channel_count: source.channel_layout.channel_count,
            status: SourceStatus::Present,
            encoding: Some(pe.groups[i].header.encoding),
            group_sequence: Some(pe.groups[i].header.group_sequence),
            payload: Some(pe.groups[i].payload),
            missing_reason: None,
        },
        None => ReleasedGroupView {
            source_id: source.source_id@,
            required: source.required,
            channel_count: source.channel_layout.channel_count,
            status: if source.required {
                SourceStatus::MissingRequired
            } else {
                SourceStatus::MissingOptional
            },
            encoding: None,
            group_sequence: None,
            payload: None,
            missing_reason: Some(
                match reason_at(pe.missing_reasons, source.source_id@) {
                    Some(j) => pe.missing_reasons[j].1,
                    None => MissingReason::AggregationDeadline,
                },
            ),
        },
    }
}

pub open spec fn spec_released_groups(p: StemConfigParts, pe: PendingView) -> Seq<ReleasedGroupView> {
    spec_expected_sources(p).map_values(|source: SourceDefinition| spec_released_group(source, pe))
}

pub open spec fn saturating_next(n: u64) -> u64 {
    if n == u64::MAX {
        n
    } else {
        (n + 1) as u64
    }
}

pub open spec fn recent_at(recent: Seq<u64>, value: u64) -> Option<int> {
    find_first(recent, is_value(value))
}

/// Fold the released epochs that continue the contiguous prefix into it.
pub open spec fn advance_release(recent: Seq<u64>, next: u64) -> (Seq<u64>, u64)
    decreases recent.len(),
{
    match recent_at(recent, next) {
        Some(i) => if 0 <= i < recent.len() {
            advance_release(recent.remove(i), saturating_next(next))
        } else {
            (recent, next)
        },
        None => (recent, next),
    }
}

/// Record a released epoch.
pub open spec fn spec_remember(recent: Seq<u64>, next: u64, epoch_number: u64) -> (Seq<u64>, u64) {
    let recent2 = if recent.contains(epoch_number) {
        recent
    } else {
        recent.push(epoch_number)
    };
    advance_release(recent2, next)
}

/// Release one pending epoch for a reason at a host time.
pub open spec fn spec_release(s: AssemblerView, epoch_number: u64, reason: ReleaseReason, at: u64) -> (AssemblerView, Result<ReleasedEpochView, StemError>) {
    if epoch_number != s.next_contiguous_release && !s.released_recent.contains(epoch_number)
        && s.released_recent.len() >= RELEASED_WINDOW_EPOCHS {
        (s, Err(stem_error(StemErrorCode::PendingEpochCapacity, "releasedEpochWindow")))
    } else {
        match pending_at(s.pending, epoch_number) {
            None => (s, Err(stem_error(StemErrorCode::EpochGeometryMismatch, "pendingEpoch"))),
            Some(i) => {
                let pe = s.pending[i];
                let s2 = AssemblerView { pending: s.pending.remove(i), ..s };
                let groups = spec_released_groups(s.config, pe);
                if reason == ReleaseReason::Complete && exists|k: int|
                    0 <= k < groups.len() && (#[trigger] groups[k]).status != SourceStatus::Present {
                    (s2, Err(stem_error(StemErrorCode::EpochGeometryMismatch, "completeRelease")))
                } else {
                    let (recent, next) = spec_remember(s2.released_recent, s2.next_contiguous_release, epoch_number);
                    (
                        AssemblerView { released_recent: recent, next_contiguous_release: next, ..s2 },
                        Ok(
                            ReleasedEpochView {
                                identity: s.config.identity,
                                config_generation: s.config.config_generation,
                                source_map_version: s.config.source_map.version,
                                key_epoch: s.config.key_epoch,
                                source_clock_id: s.config.source_map.source_clock_id@,
                                epoch_number,
                                remote_pts: pe.remote_pts,
                                frame_samples: s.config.source_map.frame_samples,
                                groups,
                                release_reason: reason,
                                released_at_host_time_nanoseconds: at,
                            },
                        ),
                    )
                }
            },
        }
    }
}

/// Offer one recovered group at a host time: the next state and the outcome.
pub open spec fn spec_insert(s: AssemblerView, g: GroupView, t: u64) -> (AssemblerView, Result<InsertView, StemError>) {
    match spec_observe(s, t) {
        Err(e) => (s, Err(e)),
        Ok(s1) => {
            let h = g.header;
            if spec_was_released(s1, h.epoch_number) {
                (s1, Ok(InsertView::LateDiscarded))
            } else if group_binding_check(s1.config, g) is Err {
                (s1, Err(group_binding_check(s1.config, g)->Err_0))
            } else {
                let (s2, r2) = spec_timeline(s1, h.epoch_number, h.remote_pts);
                if r2 is Err {
                    (s2, Err(r2->Err_0))
                } else {
                    let (s3, r3) = spec_sequence(s2, g.source_id, h.epoch_number, h.group_sequence);
                    if r3 is Err {
                        (s3, Err(r3->Err_0))
                    } else if spec_capacity(s3, h.epoch_number) is Err {
                        (s3, Err(spec_capacity(s3, h.epoch_number)->Err_0))
                    } else {
                        let s4 = spec_with_entry(s3, h.epoch_number, h.remote_pts, t);
                        let i = pending_at(s4.pending, h.epoch_number)->0;
                        let pe = s4.pending[i];
                        if pe.remote_pts != h.remote_pts {
                            (s4, Err(stem_error(StemErrorCode::EpochGeometryMismatch, "remotePts")))
                        } else {
                            match group_with_ref(pe.groups, h.source_ref) {
                                Some(j) => if pe.groups[j] == g {
                                    (s4, Ok(InsertView::DuplicateDiscarded))
                                } else {
                                    (s4, Err(stem_error(StemErrorCode::DuplicateConflict, "sourceRef")))
                                },
                                None => {
                                    let pe2 = PendingView {
                                        groups: pe.groups.push(g),
                                        missing_reasons: without_reason(pe.missing_reasons, g.source_id),
                                        ..pe
                                    };
                                    let s5 = AssemblerView { pending: s4.pending.update(i, pe2), ..s4 };
                                    if pending_complete(s5.config, pe2) {
                                        let (s6, r) = spec_release(s5, h.epoch_number, ReleaseReason::Complete, t);
                                        (
                                            s6,
                                            match r {
                                                Ok(released) => Ok(InsertView::Released(released)),
                                                Err(e) => Err(e),
                                            },
                                        )
                                    } else {
                                        (s5, Ok(InsertView::Accepted))
                                    }
                                },
                            }
                        }
                    }
                }
            }
        },
    }
}

/// Record why a source is missing from an epoch.
pub open spec fn spec_record_missing(
    s: AssemblerView,
    epoch_number: u64,
    remote_pts: u64,
    source_id: Seq<char>,
    reason: MissingReason,
    t: u64,
) -> (AssemblerView, Result<InsertView, StemError>) {
    match spec_observe(s, t) {
        Err(e) => (s, Err(e)),
        Ok(s1) => if spec_was_released(s1, epoch_number) {
            (s1, Ok(InsertView::LateDiscarded))
        } else if !source_admitted(s1.config, source_id) {
            (s1, Err(stem_error(StemErrorCode::SourceNotAuthorized, "sourceId")))
        } else {
            let (s2, r2) = spec_timeline(s1, epoch_number, remote_pts);
            if r2 is Err {
                (s2, Err(r2->Err_0))
            } else if spec_capacity(s2, epoch_number) is Err {
                (s2, Err(spec_capacity(s2, epoch_number)->Err_0))
            } else {
                let s3 = spec_with_entry(s2, epoch_number, remote_pts, t);
                let i = pending_at(s3.pending, epoch_number)->0;
                let pe = s3.pending[i];
                if pe.remote_pts != remote_pts {
                    (s3, Err(stem_error(StemErrorCode::EpochGeometryMismatch, "remotePts")))
                } else if group_with_source(pe.groups, source_id) is Some {
                    (s3, Ok(InsertView::Accepted))
                } else {
                    let pe2 = PendingView { missing_reasons: with_reason(pe.missing_reasons, source_id, reason), ..pe };
                    (AssemblerView { pending: s3.pending.update(i, pe2), ..s3 }, Ok(InsertView::Accepted))
                }
            }
        },
    }
}

/// An epoch is due when its first observation plus the deadline (without overflow) is not after `now`.
pub open spec fn pending_due(pe: PendingView, now: u64, deadline_ns: u64) -> bool {
    pe.first_observed_host_time_nanoseconds + deadline_ns <= u64::MAX
        && pe.first_observed_host_time_nanoseconds + deadline_ns <= now
}

/// The due epochs, in pending (ascending) order.
pub open spec fn due_epochs(ps: Seq<PendingView>, now: u64, deadline_ns: u64) -> Seq<u64>
    decreases ps.len(),
{
    if ps.len() == 0 {
        Seq::empty()
    } else {
        let rest = due_epochs(ps.drop_last(), now, deadline_ns);
        if pending_due(ps.last(), now, deadline_ns) {
            rest.push(ps.last().epoch_number)
        } else {
            rest
        }
    }
}

/// Release the listed epochs in order, stopping at the first error.
pub open spec fn spec_release_all(s: AssemblerView, epochs: Seq<u64>, now: u64) -> (AssemblerView, Result<Seq<ReleasedEpochView>, StemError>)
    decreases epochs.len(),
{
    if epochs.len() == 0 {
        (s, Ok(Seq::empty()))
    } else {
        let (s1, r) = spec_release(s, epochs[0], ReleaseReason::AggregationDeadline, now);
        match r {
            Err(e) => (s1, Err(e)),
            Ok(released) => {
                let (s2, rest) = spec_release_all(s1, epochs.drop_first(), now);
                (
                    s2,
                    match rest {
                        Ok(more) => Ok(seq![released] + more),
                        Err(e) => Err(e),
                    },
                )
            },
        }
    }
}

/// Release every pending epoch whose aggregation deadline elapsed by `now`.
pub open spec fn spec_release_due(s: AssemblerView, now: u64) -> (AssemblerView, Result<Seq<ReleasedEpochView>, StemError>) {
    match spec_observe(s, now) {
        Err(e) => (s, Err(e)),
        Ok(s1) => {
            let deadline_ns = (s1.config.latency_policy.aggregation_deadline_microseconds * 1000) as u64;
            spec_release_all(s1, due_epochs(s1.pending, now, deadline_ns), now)
        },
    }
}

#[derive(Debug)]
struct MissingEntry {
    source_id: String,
    reason: MissingReason,
}

#[derive(Debug)]
struct SequenceOrigin {
    source_id: String,
    epoch_number: u64,
    group_sequence: u64,
}

#[derive(Debug)]
struct PendingEpoch {
    epoch_number: u64,
    remote_pts: u64,
    first_observed_host_time_nanoseconds: u64,
    groups: Vec<RecoveredStemGroup>,
    missing_reasons: Vec<MissingEntry>,
}

spec fn missing_entry_view(m: MissingEntry) -> (Seq<char>, MissingReason) {
    (m.source_id@, m.reason)
}

spec fn groups_view(groups: Seq<RecoveredStemGroup>) -> Seq<GroupView> {
    groups.map_values(|g: RecoveredStemGroup| g@)
}

spec fn reasons_view(reasons: Seq<MissingEntry>) -> Seq<(Seq<char>, MissingReason)> {
    reasons.map_values(|m: MissingEntry| missing_entry_view(m))
}

spec fn pending_epoch_view(p: PendingEpoch) -> PendingView {
    PendingView {
        epoch_number: p.epoch_number,
        remote_pts: p.remote_pts,
        first_observed_host_time_nanoseconds: p.first_observed_host_time_nanoseconds,
        groups: groups_view(p.groups@),
        missing_reasons: reasons_view(p.missing_reasons@),
    }
}

spec fn pendings_view(ps: Seq<PendingEpoch>) -> Seq<PendingView> {
    ps.map_values(|p: PendingEpoch| pending_epoch_view(p))
}

spec fn origin_view(o: SequenceOrigin) -> (Seq<char>, u64, u64) {
    (o.source_id@, o.epoch_number, o.group_sequence)
}

spec fn origins_view(os: Seq<SequenceOrigin>) -> Seq<(Seq<char>, u64, u64)> {
    os.map_values(|o: SequenceOrigin| origin_view(o))
}

/// Collects recovered groups into epochs and releases each epoch once: when
/// every expected source is present, or when its aggregation deadline passes.
#[derive(Debug)]
pub struct EpochAssembler {
    config: AuthoritativeStemConfig,
    pending: Vec<PendingEpoch>,
    released_recent: Vec<u64>,
    next_contiguous_release: u64,
    timeline_origin: Option<(u64, u64)>,
    source_sequence_origins: Vec<SequenceOrigin>,
    last_host_time_nanoseconds: Option<u64>,
    max_pending_epochs: usize,
}

impl View for EpochAssembler {
    type V = AssemblerView;

    closed spec fn view(&self) -> AssemblerView {
        AssemblerView {
            config: self.config@,
            pending: pendings_view(self.pending@),
            released_recent: self.released_recent@,
            next_contiguous_release: self.next_contiguous_release,
            timeline_origin: self.timeline_origin,
            source_sequence_origins: origins_view(self.source_sequence_origins@),
            last_host_time_nanoseconds: self.last_host_time_nanoseconds,
            max_pending_epochs: self.max_pending_epochs as nat,
        }
    }
}

/// The state of a new assembler.
pub open spec fn initial_assembler(p: StemConfigParts, max_pending_epochs: nat) -> AssemblerView {
    AssemblerView {
        config: p,
        pending: Seq::empty(),
        released_recent: Seq::empty(),
        next_contiguous_release: p.effective_epoch,
        timeline_origin: None,
        source_sequence_origins: Seq::empty(),
        last_host_time_nanoseconds: None,
        max_pending_epochs,
    }
}

fn position_of_u64(values: &Vec<u64>, value: u64) -> (res: Option<usize>)
    ensures
        match res {
            Some(i) => recent_at(values@, value) == Some(i as int) && i < values@.len(),
            None => recent_at(values@, value) is None,
        },
{
    let ghost pred = is_value(value);
    let mut i: usize = 0;
    while i < values.len()
        invariant
            0 <= i <= values@.len(),
            pred == is_value(value),
            forall|k: int| 0 <= k < i ==> !pred(#[trigger] values@[k]),
        decreases values@.len() - i,
    {
        if values[i] == value {
            proof {
                lemma_find_first_is(values@, pred, i as int);
            }
            return Some(i);
        }
        i = i + 1;
    }
    proof {
        lemma_find_first_is(values@, pred, i as int);
    }
    None
}

impl EpochAssembler {
    /// Create an assembler with the bounded default pending-epoch capacity.
    pub fn new(config: AuthoritativeStemConfig) -> (res: Result<Self, StemError>)
        ensures
            match res {
                Ok(a) => a@ == initial_assembler(config@, 64) && a.well_formed(),
                Err(_) => false,
            },
    {
        Self::with_pending_capacity(config, DEFAULT_MAX_PENDING_EPOCHS)
    }

    /// Create an assembler with an explicit bounded pending-epoch capacity.
    pub fn with_pending_capacity(config: AuthoritativeStemConfig, max_pending_epochs: usize) -> (res: Result<Self, StemError>)
        ensures
            match res {
                Ok(a) => 1 <= max_pending_epochs <= 1_024 && a@ == initial_assembler(config@, max_pending_epochs as nat)
                    && a.well_formed(),
                Err(e) => (max_pending_epochs == 0 || max_pending_epochs > 1_024) && e == stem_error(
                    StemErrorCode::PendingEpochCapacity,
                    "maxPendingEpochs",
                ),
            },
    {
        if max_pending_epochs == 0 || max_pending_epochs > 1_024 {
            return Err(StemError::new(StemErrorCode::PendingEpochCapacity, "maxPendingEpochs"));
        }
        let next_contiguous_release = config.effective_epoch();
        let a = EpochAssembler {
            config,
            pending: Vec::new(),
            released_recent: Vec::new(),
            next_contiguous_release,
            timeline_origin: None,
            source_sequence_origins: Vec::new(),
            last_host_time_nanoseconds: None,
            max_pending_epochs,
        };
        assert(a@ =~= initial_assembler(a.config@, max_pending_epochs as nat));
        proof {
            law_new_assembler_well_formed(a.config@, max_pending_epochs as nat);
        }
        Ok(a)
    }

    pub fn config(&self) -> (res: &AuthoritativeStemConfig)
        ensures
            res@ == self@.config,
    {
        &self.config
    }

    pub fn pending_epoch_count(&self) -> (res: usize)
        ensures
            res == self@.pending.len(),
    {
        self.pending.len()
    }

    fn observe_host_time(&mut self, value: u64) -> (res: Result<(), StemError>)
        ensures
            match spec_observe(old(self)@, value) {
                Ok(s1) => res is Ok && final(self)@ == s1,
                Err(e) => res == Err::<(), StemError>(e) && final(self)@ == old(self)@,
            },
    {
        if !safe(value) {
            return Err(StemError::new(StemErrorCode::ClockRegression, "hostTimeNanoseconds"));
        }
        match self.last_host_time_nanoseconds {
            Some(last) => {
                if value < last {
                    return Err(StemError::new(StemErrorCode::ClockRegression, "hostTimeNanoseconds"));
                }
            },
            None => {},
        }
        self.last_host_time_nanoseconds = Some(value);
        Ok(())
    }

    fn was_released(&self, epoch_number: u64) -> (res: bool)
        ensures
            res == spec_was_released(self@, epoch_number),
    {
        if epoch_number < self.next_contiguous_release {
            return true;
        }
        let found = position_of_u64(&self.released_recent, epoch_number);
        proof {
            lemma_find_first(self.released_recent@, is_value(epoch_number));
            if self.released_recent@.contains(epoch_number) {
                let k = choose|k: int| 0 <= k < self.released_recent@.len() && self.released_recent@[k] == epoch_number;
                assert(is_value(epoch_number)(self.released_recent@[k]));
            }
        }
        found.is_some()
    }

    fn find_pending(&self, epoch_number: u64) -> (res: Option<usize>)
        ensures
            match res {
                Some(i) => pending_at(self@.pending, epoch_number) == Some(i as int) && i < self.pending@.len(),
                None => pending_at(self@.pending, epoch_number) is None,
            },
    {
        let ghost ps = self@.pending;
        let ghost pred = has_epoch(epoch_number);
        let mut i: usize = 0;
        while i < self.pending.len()
            invariant
                0 <= i <= self.pending@.len(),
                ps == pendings_view(self.pending@),
                ps.len() == self.pending@.len(),
                pred == has_epoch(epoch_number),
                forall|k: int| 0 <= k < i ==> !pred(#[trigger] ps[k]),
            decreases self.pending@.len() - i,
        {
            assert(ps[i as int] == pending_epoch_view(self.pending@[i as int]));
            if self.pending[i].epoch_number == epoch_number {
                proof {
                    lemma_find_first_is(ps, pred, i as int);
                }
                return Some(i);
            }
            i = i + 1;
        }
        proof {
            lemma_find_first_is(ps, pred, i as int);
        }
        None
    }

    fn find_slot(&self, epoch_number: u64) -> (res: usize)
        ensures
            res == pending_slot(self@.pending, epoch_number),
            res <= self.pending@.len(),
    {
        let ghost ps = self@.pending;
        let ghost pred = at_or_after(epoch_number);
        let mut i: usize = 0;
        while i < self.pending.len()
            invariant
                0 <= i <= self.pending@.len(),
                ps == pendings_view(self.pending@),
                ps.len() == self.pending@.len(),
                pred == at_or_after(epoch_number),
                forall|k: int| 0 <= k < i ==> !pred(#[trigger] ps[k]),
            decreases self.pending@.len() - i,
        {
            assert(ps[i as int] == pending_epoch_view(self.pending@[i as int]));
            if self.pending[i].epoch_number >= epoch_number {
                proof {
                    lemma_find_first_is(ps, pred, i as int);
                }
                return i;
            }
            i = i + 1;
        }
        proof {
            lemma_find_first_is(ps, pred, i as int);
        }
        i
    }
}

impl EpochAssembler {
    fn validate_group_binding(&self, group: &RecoveredStemGroup) -> (res: Result<(), StemError>)
        ensures
            res == group_binding_check(self@.config, group@),
    {
        let header = group.header();
        let source = match self.config.source_for_ref(header.source_ref) {
            Some(source) => source,
            None => return Err(StemError::new(StemErrorCode::UnknownSourceRef, "sourceRef")),
        };
        let encoding_ok = match self.config.encoding_for_source(source.source_id()) {
            Some(encoding) => encoding == header.encoding,
            None => false,
        };
        if header.topology_generation != self.config.topology_generation()
            || header.binding_generation != self.config.binding_generation()
            || header.config_ref != self.config.config_ref()
            || header.config_generation != self.config.config_generation()
            || header.source_map_version as u64 != self.config.source_map_version()
            || header.key_epoch != self.config.key_epoch() || header.frame_samples != self.config.frame_samples()
            || !str_equal(source.source_id(), group.source_id()) || source.required() != group.required()
            || source.channel_layout().channel_count() != group.channel_count() || !encoding_ok {
            return Err(StemError::new(StemErrorCode::EpochGeometryMismatch, "groupBinding"));
        }
        Ok(())
    }

    fn validate_timeline(&mut self, epoch_number: u64, remote_pts: u64) -> (res: Result<(), StemError>)
        ensures
            (final(self)@, res) == spec_timeline(old(self)@, epoch_number, remote_pts),
    {
        if epoch_number < self.config.effective_epoch() {
            return Err(StemError::new(StemErrorCode::ConfigNotEffective, "epochNumber"));
        }
        let origin = match self.timeline_origin {
            Some(o) => o,
            None => (epoch_number, remote_pts),
        };
        self.timeline_origin = Some(origin);
        let frame_samples = self.config.frame_samples();
        let delta: i128 = (epoch_number as i128) - (origin.0 as i128);
        let fs: i128 = frame_samples as i128;
        assert(-0x1_0000_0000_0000_0000 * 4096 <= delta * fs <= 0x1_0000_0000_0000_0000 * 4096) by (nonlinear_arith)
            requires
                -0x1_0000_0000_0000_0000 <= delta <= 0x1_0000_0000_0000_0000,
                1 <= fs <= 4096,
        ;
        let expected: i128 = (origin.1 as i128) + delta * fs;
        if expected != remote_pts as i128 {
            return Err(StemError::new(StemErrorCode::EpochGeometryMismatch, "remotePts"));
        }
        Ok(())
    }

    fn validate_source_sequence(&mut self, source_id: &str, epoch_number: u64, group_sequence: u64) -> (res: Result<(), StemError>)
        ensures
            (final(self)@, res) == spec_sequence(old(self)@, source_id@, epoch_number, group_sequence),
    {
        let ghost os = old(self)@.source_sequence_origins;
        let ghost pred = origin_for(source_id@);
        let mut i: usize = 0;
        let n = self.source_sequence_origins.len();
        while i < n
            invariant
                n == self.source_sequence_origins@.len(),
                0 <= i <= n,
                self == old(self),
                os == origins_view(self.source_sequence_origins@),
                pred == origin_for(source_id@),
                forall|k: int| 0 <= k < i ==> !pred(#[trigger] os[k]),
            ensures
                0 <= i <= n,
                i < n ==> pred(os[i as int]),
                forall|k: int| 0 <= k < i ==> !pred(#[trigger] os[k]),
            decreases n - i,
        {
            assert(os[i as int] == origin_view(self.source_sequence_origins@[i as int]));
            if str_equal(self.source_sequence_origins[i].source_id.as_str(), source_id) {
                break;
            }
            i = i + 1;
        }
        proof {
            lemma_find_first_is(os, pred, i as int);
        }
        let (origin_epoch, origin_sequence) = if i < n {
            (self.source_sequence_origins[i].epoch_number, self.source_sequence_origins[i].group_sequence)
        } else {
            self.source_sequence_origins.push(
                SequenceOrigin { source_id: String::from_str(source_id), epoch_number, group_sequence },
            );
            assert(origins_view(self.source_sequence_origins@) =~= os.push((source_id@, epoch_number, group_sequence)));
            (epoch_number, group_sequence)
        };
        let expected: i128 = (origin_sequence as i128) + ((epoch_number as i128) - (origin_epoch as i128));
        if expected != group_sequence as i128 {
            return Err(StemError::new(StemErrorCode::EpochGeometryMismatch, "groupSequence"));
        }
        Ok(())
    }

    fn ensure_pending_capacity(&self, epoch_number: u64) -> (res: Result<(), StemError>)
        ensures
            res == spec_capacity(self@, epoch_number),
    {
        if self.find_pending(epoch_number).is_none() && self.pending.len() >= self.max_pending_epochs {
            return Err(StemError::new(StemErrorCode::PendingEpochCapacity, "pendingEpochs"));
        }
        Ok(())
    }

    /// The index of the pending entry for the epoch, created when absent.
    fn ensure_entry(&mut self, epoch_number: u64, remote_pts: u64, observed_at: u64) -> (res: usize)
        ensures
            final(self)@ == spec_with_entry(old(self)@, epoch_number, remote_pts, observed_at),
            pending_at(final(self)@.pending, epoch_number) == Some(res as int),
            res < final(self).pending@.len(),
    {
        match self.find_pending(epoch_number) {
            Some(i) => i,
            None => {
                let ghost ps = self@.pending;
                let slot = self.find_slot(epoch_number);
                let entry = PendingEpoch {
                    epoch_number,
                    remote_pts,
                    first_observed_host_time_nanoseconds: observed_at,
                    groups: Vec::new(),
                    missing_reasons: Vec::new(),
                };
                self.pending.insert(slot, entry);
                proof {
                    let fresh = PendingView {
                        epoch_number,
                        remote_pts,
                        first_observed_host_time_nanoseconds: observed_at,
                        groups: Seq::empty(),
                        missing_reasons: Seq::empty(),
                    };
                    assert(pending_epoch_view(entry) =~= fresh);
                    assert(self@.pending =~= ps.insert(slot as int, fresh));
                    lemma_find_first(ps, at_or_after(epoch_number));
                    assert forall|k: int| 0 <= k < slot implies !has_epoch(epoch_number)(#[trigger] self@.pending[k]) by {
                        assert(self@.pending[k] == ps[k]);
                        assert(!at_or_after(epoch_number)(ps[k]));
                    }
                    lemma_find_first_is(self@.pending, has_epoch(epoch_number), slot as int);
                    assert(pending_at(self@.pending, epoch_number) == Some(slot as int));
                    assert(self@ =~= spec_with_entry(old(self)@, epoch_number, remote_pts, observed_at));
                }
                slot
            },
        }
    }

    /// Record a released epoch and fold the contiguous prefix.
    fn remember_released(&mut self, epoch_number: u64)
        ensures
            (final(self)@.released_recent, final(self)@.next_contiguous_release) == spec_remember(
                old(self)@.released_recent,
                old(self)@.next_contiguous_release,
                epoch_number,
            ),
            final(self)@ == (AssemblerView {
                released_recent: final(self)@.released_recent,
                next_contiguous_release: final(self)@.next_contiguous_release,
                ..old(self)@
            }),
    {
        let ghost old_view = self@;
        let known = position_of_u64(&self.released_recent, epoch_number);
        proof {
            lemma_find_first(self.released_recent@, is_value(epoch_number));
            if self.released_recent@.contains(epoch_number) {
                let k = choose|k: int| 0 <= k < self.released_recent@.len() && self.released_recent@[k] == epoch_number;
                assert(is_value(epoch_number)(self.released_recent@[k]));
            }
        }
        if known.is_none() {
            self.released_recent.push(epoch_number);
        }
        let ghost target = advance_release(self.released_recent@, self.next_contiguous_release);
        loop
            invariant
                advance_release(self.released_recent@, self.next_contiguous_release) == target,
                self@ == (AssemblerView {
                    released_recent: self@.released_recent,
                    next_contiguous_release: self@.next_contiguous_release,
                    ..old_view
                }),
            ensures
                (self.released_recent@, self.next_contiguous_release) == target,
            decreases self.released_recent@.len(),
        {
            match position_of_u64(&self.released_recent, self.next_contiguous_release) {
                Some(i) => {
                    let ghost r0 = self.released_recent@;
                    let ghost n0 = self.next_contiguous_release;
                    proof {
                        lemma_find_first(r0, is_value(n0));
                        assert(advance_release(r0, n0) == advance_release(r0.remove(i as int), saturating_next(n0)));
                    }
                    self.released_recent.remove(i);
                    assert(self.released_recent@ =~= r0.remove(i as int));
                    self.next_contiguous_release = if self.next_contiguous_release == u64::MAX {
                        u64::MAX
                    } else {
                        self.next_contiguous_release + 1
                    };
                },
                None => {
                    break;
                },
            }
        }
    }
}


fn group_index_for_source(groups: &Vec<RecoveredStemGroup>, source_id: &str) -> (res: Option<usize>)
    ensures
        match res {
            Some(i) => group_with_source(groups_view(groups@), source_id@) == Some(i as int) && i < groups@.len(),
            None => group_with_source(groups_view(groups@), source_id@) is None,
        },
{
    let ghost gs = groups_view(groups@);
    let ghost pred = group_for_source(source_id@);
    let mut i: usize = 0;
    while i < groups.len()
        invariant
            0 <= i <= groups@.len(),
            gs == groups_view(groups@),
            gs.len() == groups@.len(),
            pred == group_for_source(source_id@),
            forall|k: int| 0 <= k < i ==> !pred(#[trigger] gs[k]),
        decreases groups@.len() - i,
    {
        assert(gs[i as int] == groups@[i as int]@);
        if str_equal(groups[i].source_id(), source_id) {
            proof {
                lemma_find_first_is(gs, pred, i as int);
            }
            return Some(i);
        }
        i = i + 1;
    }
    proof {
        lemma_find_first_is(gs, pred, i as int);
    }
    None
}

fn group_index_for_ref(groups: &Vec<RecoveredStemGroup>, source_ref: u16) -> (res: Option<usize>)
    ensures
        match res {
            Some(i) => group_with_ref(groups_view(groups@), source_ref) == Some(i as int) && i < groups@.len(),
            None => group_with_ref(groups_view(groups@), source_ref) is None,
        },
{
    let ghost gs = groups_view(groups@);
    let ghost pred = group_for_ref(source_ref);
    let mut i: usize = 0;
    while i < groups.len()
        invariant
            0 <= i <= groups@.len(),
            gs == groups_view(groups@),
            gs.len() == groups@.len(),
            pred == group_for_ref(source_ref),
            forall|k: int| 0 <= k < i ==> !pred(#[trigger] gs[k]),
        decreases groups@.len() - i,
    {
        assert(gs[i as int] == groups@[i as int]@);
        if groups[i].header().source_ref == source_ref {
            proof {
                lemma_find_first_is(gs, pred, i as int);
            }
            return Some(i);
        }
        i = i + 1;
    }
    proof {
        lemma_find_first_is(gs, pred, i as int);
    }
    None
}

fn reason_index(reasons: &Vec<MissingEntry>, source_id: &str) -> (res: Option<usize>)
    ensures
        match res {
            Some(i) => reason_at(reasons_view(reasons@), source_id@) == Some(i as int) && i < reasons@.len(),
            None => reason_at(reasons_view(reasons@), source_id@) is None,
        },
{
    let ghost rs = reasons_view(reasons@);
    let ghost pred = reason_for(source_id@);
    let mut i: usize = 0;
    while i < reasons.len()
        invariant
            0 <= i <= reasons@.len(),
            rs == reasons_view(reasons@),
            rs.len() == reasons@.len(),
            pred == reason_for(source_id@),
            forall|k: int| 0 <= k < i ==> !pred(#[trigger] rs[k]),
        decreases reasons@.len() - i,
    {
        assert(rs[i as int] == missing_entry_view(reasons@[i as int]));
        if str_equal(reasons[i].source_id.as_str(), source_id) {
            proof {
                lemma_find_first_is(rs, pred, i as int);
            }
            return Some(i);
        }
        i = i + 1;
    }
    proof {
        lemma_find_first_is(rs, pred, i as int);
    }
    None
}

/// The released state of one expected source of a pending epoch.
fn released_group(source: &SourceDefinition, pending: &PendingEpoch) -> (res: ReleasedGroup)
    ensures
        res@ == spec_released_group(*source, pending_epoch_view(*pending)),
{
    let ghost pe = pending_epoch_view(*pending);
    match group_index_for_source(&pending.groups, source.source_id()) {
        Some(i) => {
            let group = &pending.groups[i];
            assert(pe.groups[i as int] == group@);
            let res = ReleasedGroup {
                source_id: String::from_str(source.source_id()),
                required: source.required(),
                channel_count: source.channel_layout().channel_count(),
                status: SourceStatus::Present,
                encoding: Some(group.header().encoding),
                group_sequence: Some(group.header().group_sequence),
                payload: Some(group.payload_copy()),
                missing_reason: None,
            };
            assert(res@ =~= spec_released_group(*source, pe));
            res
        },
        None => {
            let missing_reason = match reason_index(&pending.missing_reasons, source.source_id()) {
                Some(j) => {
                    assert(pe.missing_reasons[j as int] == missing_entry_view(pending.missing_reasons@[j as int]));
                    pending.missing_reasons[j].reason
                },
                None => MissingReason::AggregationDeadline,
            };
            let res = ReleasedGroup {
                source_id: String::from_str(source.source_id()),
                required: source.required(),
                channel_count: source.channel_layout().channel_count(),
                status: if source.required() {
                    SourceStatus::MissingRequired
                } else {
                    SourceStatus::MissingOptional
                },
                encoding: None,
                group_sequence: None,
                payload: None,
                missing_reason: Some(missing_reason),
            };
            assert(res@ =~= spec_released_group(*source, pe));
            res
        },
    }
}


pub open spec fn released_result_view(res: Result<ReleasedEpoch, StemError>) -> Result<ReleasedEpochView, StemError> {
    match res {
        Ok(r) => Ok(r@),
        Err(e) => Err(e),
    }
}

impl EpochAssembler {
    fn epoch_is_complete(&self, epoch_number: u64) -> (res: bool)
        ensures
            res == match pending_at(self@.pending, epoch_number) {
                Some(i) => pending_complete(self@.config, self@.pending[i]),
                None => false,
            },
    {
        let i = match self.find_pending(epoch_number) {
            Some(i) => i,
            None => return false,
        };
        let pending = &self.pending[i];
        let ghost pe = self@.pending[i as int];
        assert(pe == pending_epoch_view(*pending));
        let expected = self.config.expected_sources();
        let ghost es = spec_expected_sources(self@.config);
        let mut k: usize = 0;
        while k < expected.len()
            invariant
                0 <= k <= expected@.len(),
                expected@.len() == es.len(),
                es == spec_expected_sources(self@.config),
                pe == self@.pending[i as int],
                pending_at(self@.pending, epoch_number) == Some(i as int),
                forall|j: int| 0 <= j < expected@.len() ==> *(#[trigger] expected@[j]) == es[j],
                pe == pending_epoch_view(*pending),
                forall|j: int|
                    0 <= j < k ==> group_with_source(pe.groups, (#[trigger] es[j]).source_id@) is Some,
            decreases expected@.len() - k,
        {
            let source: &SourceDefinition = expected[k];
            assert(*source == es[k as int]);
            if group_index_for_source(&pending.groups, source.source_id()).is_none() {
                assert(group_with_source(pe.groups, es[k as int].source_id@) is None);
                assert(!pending_complete(self@.config, pe));
                return false;
            }
            k = k + 1;
        }
        true
    }

    /// Release one pending epoch, forgetting its pending state.
    fn release_epoch(&mut self, epoch_number: u64, release_reason: ReleaseReason, released_at: u64) -> (res: Result<ReleasedEpoch, StemError>)
        ensures
            (final(self)@, released_result_view(res)) == spec_release(old(self)@, epoch_number, release_reason, released_at),
    {
        let known = position_of_u64(&self.released_recent, epoch_number);
        proof {
            lemma_find_first(self.released_recent@, is_value(epoch_number));
            if self.released_recent@.contains(epoch_number) {
                let k = choose|k: int| 0 <= k < self.released_recent@.len() && self.released_recent@[k] == epoch_number;
                assert(is_value(epoch_number)(self.released_recent@[k]));
            }
        }
        if epoch_number != self.next_contiguous_release && known.is_none()
            && self.released_recent.len() >= RELEASED_WINDOW_EPOCHS {
            return Err(StemError::new(StemErrorCode::PendingEpochCapacity, "releasedEpochWindow"));
        }
        let i = match self.find_pending(epoch_number) {
            Some(i) => i,
            None => return Err(StemError::new(StemErrorCode::EpochGeometryMismatch, "pendingEpoch")),
        };
        let ghost s0 = self@;
        let pending = self.pending.remove(i);
        let ghost pe = pending_epoch_view(pending);
        assert(pe == s0.pending[i as int]);
        assert(self@ =~= AssemblerView { pending: s0.pending.remove(i as int), ..s0 });
        let expected = self.config.expected_sources();
        let ghost es = spec_expected_sources(self@.config);
        let ghost target = spec_released_groups(s0.config, pe);
        let mut groups: Vec<ReleasedGroup> = Vec::new();
        let mut all_present = true;
        let mut k: usize = 0;
        while k < expected.len()
            invariant
                0 <= k <= expected@.len(),
                expected@.len() == es.len(),
                es == spec_expected_sources(s0.config),
                target == spec_released_groups(s0.config, pe),
                forall|j: int| 0 <= j < expected@.len() ==> *(#[trigger] expected@[j]) == es[j],
                pe == pending_epoch_view(pending),
                groups@.len() == k,
                forall|j: int| 0 <= j < k ==> (#[trigger] groups@[j])@ == target[j],
                all_present == forall|j: int| 0 <= j < k ==> (#[trigger] target[j]).status == SourceStatus::Present,
            decreases expected@.len() - k,
        {
            let source: &SourceDefinition = expected[k];
            let g = released_group(source, &pending);
            assert(g@ == target[k as int]);
            if g.status != SourceStatus::Present {
                all_present = false;
            }
            groups.push(g);
            proof {
                if all_present {
                    assert forall|j: int| 0 <= j < k + 1 implies (#[trigger] target[j]).status == SourceStatus::Present by {
                        if j < k {
                            assert(target[j] == groups@[j]@);
                        }
                    }
                }
            }
            k = k + 1;
        }
        let ghost views = groups@.map_values(|g: ReleasedGroup| g@);
        assert(views =~= target);
        if release_reason == ReleaseReason::Complete && !all_present {
            proof {
                let j = choose|j: int| 0 <= j < k && (#[trigger] target[j]).status != SourceStatus::Present;
                assert(0 <= j < target.len() && target[j].status != SourceStatus::Present);
            }
            return Err(StemError::new(StemErrorCode::EpochGeometryMismatch, "completeRelease"));
        }
        let released = ReleasedEpoch {
            identity: self.config.identity().duplicate(),
            config_generation: self.config.config_generation(),
            source_map_version: self.config.source_map_version(),
            key_epoch: self.config.key_epoch(),
            source_clock_id: String::from_str(self.config.source_clock_id()),
            epoch_number,
            remote_pts: pending.remote_pts,
            frame_samples: self.config.frame_samples(),
            groups,
            release_reason,
            released_at_host_time_nanoseconds: released_at,
        };
        self.remember_released(epoch_number);
        proof {
            if release_reason == ReleaseReason::Complete {
                assert(!exists|j: int| 0 <= j < target.len() && (#[trigger] target[j]).status != SourceStatus::Present);
            }
        }
        assert(released@ =~= ReleasedEpochView {
            identity: s0.config.identity,
            config_generation: s0.config.config_generation,
            source_map_version: s0.config.source_map.version,
            key_epoch: s0.config.key_epoch,
            source_clock_id: s0.config.source_map.source_clock_id@,
            epoch_number,
            remote_pts: pe.remote_pts,
            frame_samples: s0.config.source_map.frame_samples,
            groups: target,
            release_reason,
            released_at_host_time_nanoseconds: released_at,
        });
        Ok(released)
    }
}


impl EpochAssembler {
    fn insert_group(&mut self, group: RecoveredStemGroup, observed_at_host_time_nanoseconds: u64) -> (res: Result<EpochInsert, StemError>)
        ensures
            (final(self)@, insert_result_view(res)) == spec_insert(old(self)@, group@, observed_at_host_time_nanoseconds),
    {
        let t = observed_at_host_time_nanoseconds;
        match self.observe_host_time(t) {
            Err(e) => return Err(e),
            Ok(()) => {},
        }
        let header = *group.header();
        if self.was_released(header.epoch_number) {
            return Ok(EpochInsert::LateDiscarded);
        }
        match self.validate_group_binding(&group) {
            Err(e) => return Err(e),
            Ok(()) => {},
        }
        match self.validate_timeline(header.epoch_number, header.remote_pts) {
            Err(e) => return Err(e),
            Ok(()) => {},
        }
        match self.validate_source_sequence(group.source_id(), header.epoch_number, header.group_sequence) {
            Err(e) => return Err(e),
            Ok(()) => {},
        }
        match self.ensure_pending_capacity(header.epoch_number) {
            Err(e) => return Err(e),
            Ok(()) => {},
        }
        let i = self.ensure_entry(header.epoch_number, header.remote_pts, t);
        let ghost s4 = self@;
        let ghost pe = s4.pending[i as int];
        assert(pe == pending_epoch_view(self.pending@[i as int]));
        if self.pending[i].remote_pts != header.remote_pts {
            return Err(StemError::new(StemErrorCode::EpochGeometryMismatch, "remotePts"));
        }
        match group_index_for_ref(&self.pending[i].groups, header.source_ref) {
            Some(j) => {
                assert(pe.groups[j as int] == self.pending@[i as int].groups@[j as int]@);
                if self.pending[i].groups[j].same_as(&group) {
                    return Ok(EpochInsert::DuplicateDiscarded);
                } else {
                    return Err(StemError::new(StemErrorCode::DuplicateConflict, "sourceRef"));
                }
            },
            None => {},
        }
        let mut pending = self.pending.remove(i);
        assert(pending_epoch_view(pending) == pe);
        match reason_index(&pending.missing_reasons, group.source_id()) {
            Some(j) => {
                let ghost before = pending.missing_reasons@;
                pending.missing_reasons.remove(j);
                assert(reasons_view(pending.missing_reasons@) =~= reasons_view(before).remove(j as int));
            },
            None => {},
        }
        let ghost gv = group@;
        let ghost gs_before = pending.groups@;
        pending.groups.push(group);
        assert(groups_view(pending.groups@) =~= groups_view(gs_before).push(gv));
        let ghost pe2 = PendingView {
            groups: pe.groups.push(gv),
            missing_reasons: without_reason(pe.missing_reasons, gv.source_id),
            ..pe
        };
        assert(pending_epoch_view(pending) =~= pe2);
        self.pending.insert(i, pending);
        assert(self@.pending =~= s4.pending.update(i as int, pe2));
        assert(self@ =~= AssemblerView { pending: s4.pending.update(i as int, pe2), ..s4 });
        proof {
            lemma_find_first(s4.pending, has_epoch(header.epoch_number));
            assert forall|k: int| 0 <= k < i implies !has_epoch(header.epoch_number)(#[trigger] self@.pending[k]) by {
                assert(self@.pending[k] == s4.pending[k]);
            }
            lemma_find_first_is(self@.pending, has_epoch(header.epoch_number), i as int);
        }
        if self.epoch_is_complete(header.epoch_number) {
            match self.release_epoch(header.epoch_number, ReleaseReason::Complete, t) {
                Ok(released) => Ok(EpochInsert::Released(released)),
                Err(e) => Err(e),
            }
        } else {
            Ok(EpochInsert::Accepted)
        }
    }
}


pub open spec fn released_list_view(res: Result<Vec<ReleasedEpoch>, StemError>) -> Result<Seq<ReleasedEpochView>, StemError> {
    match res {
        Ok(v) => Ok(v@.map_values(|r: ReleasedEpoch| r@)),
        Err(e) => Err(e),
    }
}

impl EpochAssembler {
    fn record_missing_report(
        &mut self,
        epoch_number: u64,
        remote_pts: u64,
        source_id: &str,
        reason: MissingReason,
        observed_at_host_time_nanoseconds: u64,
    ) -> (res: Result<EpochInsert, StemError>)
        ensures
            (final(self)@, insert_result_view(res)) == spec_record_missing(
                old(self)@,
                epoch_number,
                remote_pts,
                source_id@,
                reason,
                observed_at_host_time_nanoseconds,
            ),
    {
        let t = observed_at_host_time_nanoseconds;
        match self.observe_host_time(t) {
            Err(e) => return Err(e),
            Ok(()) => {},
        }
        if self.was_released(epoch_number) {
            return Ok(EpochInsert::LateDiscarded);
        }
        if !self.config.source_is_admitted(source_id) {
            return Err(StemError::new(StemErrorCode::SourceNotAuthorized, "sourceId"));
        }
        match self.validate_timeline(epoch_number, remote_pts) {
            Err(e) => return Err(e),
            Ok(()) => {},
        }
        match self.ensure_pending_capacity(epoch_number) {
            Err(e) => return Err(e),
            Ok(()) => {},
        }
        let i = self.ensure_entry(epoch_number, remote_pts, t);
        let ghost s3 = self@;
        let ghost pe = s3.pending[i as int];
        assert(pe == pending_epoch_view(self.pending@[i as int]));
        if self.pending[i].remote_pts != remote_pts {
            return Err(StemError::new(StemErrorCode::EpochGeometryMismatch, "remotePts"));
        }
        if group_index_for_source(&self.pending[i].groups, source_id).is_some() {
            return Ok(EpochInsert::Accepted);
        }
        let mut pending = self.pending.remove(i);
        assert(pending_epoch_view(pending) == pe);
        let ghost before = pending.missing_reasons@;
        match reason_index(&pending.missing_reasons, source_id) {
            Some(j) => {
                proof {
                    lemma_find_first(reasons_view(before), reason_for(source_id@));
                    assert(reasons_view(before)[j as int] == missing_entry_view(before[j as int]));
                }
                pending.missing_reasons.set(j, MissingEntry { source_id: String::from_str(source_id), reason });
                assert(reasons_view(pending.missing_reasons@) =~= reasons_view(before).update(
                    j as int,
                    (reasons_view(before)[j as int].0, reason),
                ));
            },
            None => {
                pending.missing_reasons.push(MissingEntry { source_id: String::from_str(source_id), reason });
                assert(reasons_view(pending.missing_reasons@) =~= reasons_view(before).push((source_id@, reason)));
            },
        }
        let ghost pe2 = PendingView { missing_reasons: with_reason(pe.missing_reasons, source_id@, reason), ..pe };
        assert(pending_epoch_view(pending) =~= pe2);
        self.pending.insert(i, pending);
        assert(self@.pending =~= s3.pending.update(i as int, pe2));
        assert(self@ =~= AssemblerView { pending: s3.pending.update(i as int, pe2), ..s3 });
        Ok(EpochInsert::Accepted)
    }

    fn release_due_epochs(&mut self, now_host_time_nanoseconds: u64) -> (res: Result<Vec<ReleasedEpoch>, StemError>)
        ensures
            (final(self)@, released_list_view(res)) == spec_release_due(old(self)@, now_host_time_nanoseconds),
    {
        let now = now_host_time_nanoseconds;
        match self.observe_host_time(now) {
            Err(e) => return Err(e),
            Ok(()) => {},
        }
        let ghost s1 = self@;
        let deadline_us = self.config.aggregation_deadline_microseconds();
        assert(deadline_us as u64 * 1000 <= u64::MAX) by (nonlinear_arith)
            requires
                deadline_us <= u32::MAX,
        ;
        let deadline_ns: u64 = deadline_us as u64 * 1000;
        let ghost ps = s1.pending;
        let mut due: Vec<u64> = Vec::new();
        let mut k: usize = 0;
        while k < self.pending.len()
            invariant
                0 <= k <= self.pending@.len(),
                self@ == s1,
                ps == s1.pending,
                ps.len() == self.pending@.len(),
                due@ == due_epochs(ps.take(k as int), now, deadline_ns),
            decreases self.pending@.len() - k,
        {
            assert(ps[k as int] == pending_epoch_view(self.pending@[k as int]));
            assert(ps.take(k + 1).drop_last() =~= ps.take(k as int));
            let first = self.pending[k].first_observed_host_time_nanoseconds;
            match first.checked_add(deadline_ns) {
                Some(deadline) => {
                    if deadline <= now {
                        due.push(self.pending[k].epoch_number);
                    }
                },
                None => {},
            }
            k = k + 1;
        }
        assert(ps.take(ps.len() as int) =~= ps);
        let ghost target = spec_release_all(s1, due@, now);
        assert(spec_release_due(old(self)@, now) == target);
        let mut released: Vec<ReleasedEpoch> = Vec::new();
        proof {
            assert(due@.skip(0) =~= due@);
            assert(released@.map_values(|r: ReleasedEpoch| r@) =~= Seq::<ReleasedEpochView>::empty());
            let (sf, rf) = spec_release_all(self@, due@, now);
            match rf {
                Ok(more) => {
                    assert(Seq::<ReleasedEpochView>::empty() + more =~= more);
                },
                Err(e) => {},
            }
        }
        let mut failure: Option<StemError> = None;
        let mut j: usize = 0;
        while j < due.len() && failure.is_none()
            invariant
                0 <= j <= due@.len(),
                spec_release_due(old(self)@, now) == target,
                failure is Some ==> target == (self@, Err::<Seq<ReleasedEpochView>, StemError>(failure->0)),
                failure is None ==> target == ({
                    let (sf, rf) = spec_release_all(self@, due@.skip(j as int), now);
                    (
                        sf,
                        match rf {
                            Ok(more) => Ok(released@.map_values(|r: ReleasedEpoch| r@) + more),
                            Err(e) => Err(e),
                        },
                    )
                }),
            decreases due@.len() - j,
        {
            let ghost sj = self@;
            let ghost rest = due@.skip(j as int);
            assert(rest[0] == due@[j as int]);
            assert(rest.drop_first() =~= due@.skip(j + 1));
            match self.release_epoch(due[j], ReleaseReason::AggregationDeadline, now) {
                Err(e) => {
                    proof {
                        assert(spec_release(sj, rest[0], ReleaseReason::AggregationDeadline, now) == (
                            self@,
                            Err::<ReleasedEpochView, StemError>(e),
                        ));
                        assert(spec_release_all(sj, rest, now) == (self@, Err::<Seq<ReleasedEpochView>, StemError>(e)));
                    }
                    failure = Some(e);
                    j = due.len();
                },
                Ok(r) => {
                    let ghost before = released@.map_values(|x: ReleasedEpoch| x@);
                    released.push(r);
                    assert(released@.map_values(|x: ReleasedEpoch| x@) =~= before.push(r@));
                    proof {
                        let (sf, rf) = spec_release_all(self@, due@.skip(j + 1), now);
                        match rf {
                            Ok(more) => {
                                assert(before + (seq![r@] + more) =~= before.push(r@) + more);
                            },
                            Err(e) => {},
                        }
                    }
                    j = j + 1;
                },
            }
        }
        if let Some(e) = failure {
            return Err(e);
        }
        assert(due@.skip(j as int) =~= Seq::<u64>::empty());
        assert(released@.map_values(|r: ReleasedEpoch| r@) + Seq::<ReleasedEpochView>::empty() =~= released@.map_values(|r: ReleasedEpoch| r@));
        Ok(released)
    }
}


impl EpochAssembler {
    /// What every assembler keeps between calls (see `assembler_well_formed`).
    pub open spec fn well_formed(&self) -> bool {
        assembler_well_formed(self@)
    }

    /// Insert one independently recovered and authenticated source group.
    pub fn insert(&mut self, group: RecoveredStemGroup, observed_at_host_time_nanoseconds: u64) -> (res: Result<EpochInsert, StemError>)
        requires
            old(self).well_formed(),
        ensures
            final(self).well_formed(),
            (final(self)@, insert_result_view(res)) == spec_insert(old(self)@, group@, observed_at_host_time_nanoseconds),
    {
        proof {
            use_type_invariant(&group);
            group.lemma_payload_sized();
        }
        let ghost g = group@;
        let res = self.insert_group(group, observed_at_host_time_nanoseconds);
        proof {
            law_well_formed_step(old(self)@, AssemblerCall::Insert { group: g, host_time: observed_at_host_time_nanoseconds });
        }
        res
    }

    /// Record a trusted post-header failure (for example AEAD corruption or a
    /// per-source decoder failure) so deadline release reports the closed cause.
    pub fn record_missing_source(
        &mut self,
        epoch_number: u64,
        remote_pts: u64,
        source_id: &str,
        reason: MissingReason,
        observed_at_host_time_nanoseconds: u64,
    ) -> (res: Result<EpochInsert, StemError>)
        requires
            old(self).well_formed(),
        ensures
            final(self).well_formed(),
            (final(self)@, insert_result_view(res)) == spec_record_missing(
                old(self)@,
                epoch_number,
                remote_pts,
                source_id@,
                reason,
                observed_at_host_time_nanoseconds,
            ),
    {
        let res = self.record_missing_report(epoch_number, remote_pts, source_id, reason, observed_at_host_time_nanoseconds);
        proof {
            law_well_formed_step(
                old(self)@,
                AssemblerCall::RecordMissing {
                    epoch_number,
                    remote_pts,
                    source_id: source_id@,
                    reason,
                    host_time: observed_at_host_time_nanoseconds,
                },
            );
        }
        res
    }

    /// Release every pending epoch whose immutable aggregation deadline elapsed.
    pub fn release_due(&mut self, now_host_time_nanoseconds: u64) -> (res: Result<Vec<ReleasedEpoch>, StemError>)
        requires
            old(self).well_formed(),
        ensures
            final(self).well_formed(),
            (final(self)@, released_list_view(res)) == spec_release_due(old(self)@, now_host_time_nanoseconds),
    {
        let res = self.release_due_epochs(now_host_time_nanoseconds);
        proof {
            law_well_formed_step(old(self)@, AssemblerCall::ReleaseDue { host_time: now_host_time_nanoseconds });
        }
        res
    }
}

} // verus!
