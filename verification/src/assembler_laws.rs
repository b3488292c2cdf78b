//! What every epoch-assembler operation keeps: released epochs stay
//! released, late input is discarded, duplicates are idempotent, the pending
//! and released windows stay bounded, and the pending state stays ordered and
//! free of repeats. Each law is stated over the abstract transitions
//! (`spec_insert`, `spec_record_missing`, `spec_release_due`) that the
//! assembler's methods are proved to follow.
use vstd::prelude::*;

use crate::common::{find_first, lemma_find_first, lemma_find_first_is};
use crate::epoch::{
    advance_release, at_or_after, due_epochs, group_for_ref, reason_at, reason_for, with_reason, group_with_ref, origin_at, origin_for, has_epoch, pending_slot, initial_assembler, is_value, pending_at, recent_at, saturating_next,
    spec_capacity, spec_insert, spec_observe, spec_record_missing, spec_release, spec_release_all,
    spec_release_due, spec_remember, spec_sequence, spec_timeline, spec_was_released, spec_with_entry,
    without_reason, spec_is_safe_complete, AssemblerView, SourceStatus, InsertView, MissingReason, PendingView, ReleaseReason,
    RELEASED_WINDOW_EPOCHS,
};
use crate::config::{spec_expected_sources, StemConfigParts};
use crate::error::StemError;
use crate::wire::GroupView;

verus! {

proof fn lemma_advance_keeps_released(recent: Seq<u64>, next: u64, e: u64)
    requires
        e < next || recent.contains(e),
        e < u64::MAX,
    ensures
        ({
            let (r2, n2) = advance_release(recent, next);
            e < n2 || r2.contains(e)
        }),
    decreases recent.len(),
{
    match recent_at(recent, next) {
        Some(i) => {
            lemma_find_first(recent, is_value(next));
            let r1 = recent.remove(i);
            let n1 = saturating_next(next);
            if e >= next && e != next {
                let k = choose|k: int| 0 <= k < recent.len() && recent[k] == e;
                if k < i {
                    assert(r1[k] == e);
                } else {
                    assert(r1[k - 1] == e);
                }
            }
            lemma_advance_keeps_released(r1, n1, e);
        },
        None => {},
    }
}

proof fn lemma_remember_keeps_released(recent: Seq<u64>, next: u64, released: u64, e: u64)
    requires
        e < next || recent.contains(e) || e == released,
        e < u64::MAX,
    ensures
        ({
            let (r2, n2) = spec_remember(recent, next, released);
            e < n2 || r2.contains(e)
        }),
{
    let recent2 = if recent.contains(released) {
        recent
    } else {
        recent.push(released)
    };
    if !recent.contains(released) {
        if e == released {
            assert(recent2[recent.len() as int] == e);
        } else if recent.contains(e) {
            let k = choose|k: int| 0 <= k < recent.len() && recent[k] == e;
            assert(recent2[k] == e);
        }
    }
    lemma_advance_keeps_released(recent2, next, e);
}

/// Releasing an epoch keeps every earlier release and records the new one.
pub proof fn law_release_records_epoch(s: AssemblerView, epoch_number: u64, reason: ReleaseReason, at: u64, e: u64)
    requires
        spec_was_released(s, e) || (e == epoch_number && spec_release(s, epoch_number, reason, at).1 is Ok),
        e < u64::MAX,
    ensures
        spec_was_released(spec_release(s, epoch_number, reason, at).0, e),
{
    if spec_release(s, epoch_number, reason, at).1 is Ok {
        lemma_remember_keeps_released(s.released_recent, s.next_contiguous_release, epoch_number, e);
    }
}

pub(crate) proof fn lemma_release_all_keeps_released(s: AssemblerView, epochs: Seq<u64>, now: u64, e: u64)
    requires
        spec_was_released(s, e),
        e < u64::MAX,
    ensures
        spec_was_released(spec_release_all(s, epochs, now).0, e),
    decreases epochs.len(),
{
    if epochs.len() > 0 {
        law_release_records_epoch(s, epochs[0], ReleaseReason::AggregationDeadline, now, e);
        let (s1, r) = spec_release(s, epochs[0], ReleaseReason::AggregationDeadline, now);
        if r is Ok {
            lemma_release_all_keeps_released(s1, epochs.drop_first(), now, e);
        }
    }
}

/// A released epoch stays released through every later insert (below the
/// largest epoch number, where the contiguous release marker saturates).
pub proof fn law_insert_keeps_releases(s: AssemblerView, g: GroupView, t: u64, e: u64)
    requires
        spec_was_released(s, e),
        e < u64::MAX,
    ensures
        spec_was_released(spec_insert(s, g, t).0, e),
{
    let h = g.header;
    if let Ok(s1) = spec_observe(s, t) {
        assert(spec_was_released(s1, e));
        // Every state before the completing release only changes fields other
        // than the release markers.
        let s4 = spec_with_entry(
            spec_sequence(
                spec_timeline(s1, h.epoch_number, h.remote_pts).0,
                g.source_id,
                h.epoch_number,
                h.group_sequence,
            ).0,
            h.epoch_number,
            h.remote_pts,
            t,
        );
        assert(s4.released_recent == s.released_recent);
        assert(s4.next_contiguous_release == s.next_contiguous_release);
        let i = pending_at(s4.pending, h.epoch_number)->0;
        let pe = s4.pending[i];
        let pe2 = PendingView {
            groups: pe.groups.push(g),
            missing_reasons: without_reason(pe.missing_reasons, g.source_id),
            ..pe
        };
        let s5 = AssemblerView { pending: s4.pending.update(i, pe2), ..s4 };
        law_release_records_epoch(s5, h.epoch_number, ReleaseReason::Complete, t, e);
    }
}

/// A released epoch stays released through every later missing-source report.
pub proof fn law_record_missing_keeps_releases(
    s: AssemblerView,
    epoch_number: u64,
    remote_pts: u64,
    source_id: Seq<char>,
    reason: MissingReason,
    t: u64,
    e: u64,
)
    requires
        spec_was_released(s, e),
    ensures
        spec_was_released(spec_record_missing(s, epoch_number, remote_pts, source_id, reason, t).0, e),
{
}

/// A released epoch stays released through every later deadline sweep.
pub proof fn law_release_due_keeps_releases(s: AssemblerView, now: u64, e: u64)
    requires
        spec_was_released(s, e),
        e < u64::MAX,
    ensures
        spec_was_released(spec_release_due(s, now).0, e),
{
    if let Ok(s1) = spec_observe(s, now) {
        let deadline_ns = (s1.config.latency_policy.aggregation_deadline_microseconds * 1000) as u64;
        lemma_release_all_keeps_released(s1, due_epochs(s1.pending, now, deadline_ns), now, e);
    }
}

/// A group for an epoch that was already released is discarded as late: the
/// only change is the observed host time.
pub proof fn law_late_group_is_discarded(s: AssemblerView, g: GroupView, t: u64)
    requires
        spec_was_released(s, g.header.epoch_number),
        spec_observe(s, t) is Ok,
    ensures
        spec_insert(s, g, t) == (
            AssemblerView { last_host_time_nanoseconds: Some(t), ..s },
            Ok::<InsertView, StemError>(InsertView::LateDiscarded),
        ),
{
}

/// A missing-source report for an epoch that was already released is
/// discarded as late: the only change is the observed host time.
pub proof fn law_late_report_is_discarded(
    s: AssemblerView,
    epoch_number: u64,
    remote_pts: u64,
    source_id: Seq<char>,
    reason: MissingReason,
    t: u64,
)
    requires
        spec_was_released(s, epoch_number),
        spec_observe(s, t) is Ok,
    ensures
        spec_record_missing(s, epoch_number, remote_pts, source_id, reason, t) == (
            AssemblerView { last_host_time_nanoseconds: Some(t), ..s },
            Ok::<InsertView, StemError>(InsertView::LateDiscarded),
        ),
{
}

/// The pending epochs stay within the assembler's capacity and the released
/// epochs above the contiguous marker stay within the released window.
pub open spec fn windows_bounded(s: AssemblerView) -> bool {
    &&& s.pending.len() <= s.max_pending_epochs
    &&& s.released_recent.len() <= RELEASED_WINDOW_EPOCHS
}

proof fn lemma_advance_shrinks(recent: Seq<u64>, next: u64)
    ensures
        advance_release(recent, next).0.len() <= recent.len(),
        recent.contains(next) ==> advance_release(recent, next).0.len() < recent.len(),
    decreases recent.len(),
{
    lemma_find_first(recent, is_value(next));
    match recent_at(recent, next) {
        Some(i) => {
            lemma_advance_shrinks(recent.remove(i), saturating_next(next));
        },
        None => {
            if recent.contains(next) {
                let k = choose|k: int| 0 <= k < recent.len() && recent[k] == next;
                assert(is_value(next)(recent[k]));
            }
        },
    }
}

proof fn lemma_release_bounded(s: AssemblerView, epoch_number: u64, reason: ReleaseReason, at: u64)
    requires
        windows_bounded(s),
    ensures
        windows_bounded(spec_release(s, epoch_number, reason, at).0),
        spec_release(s, epoch_number, reason, at).0.max_pending_epochs == s.max_pending_epochs,
{
    let recent = s.released_recent;
    lemma_find_first(s.pending, has_epoch(epoch_number));
    if spec_release(s, epoch_number, reason, at).1 is Ok {
        if recent.contains(epoch_number) {
            lemma_advance_shrinks(recent, s.next_contiguous_release);
        } else {
            let recent2 = recent.push(epoch_number);
            lemma_advance_shrinks(recent2, s.next_contiguous_release);
            if epoch_number == s.next_contiguous_release {
                assert(recent2[recent.len() as int] == epoch_number);
            }
        }
    }
}

proof fn lemma_release_all_bounded(s: AssemblerView, epochs: Seq<u64>, now: u64)
    requires
        windows_bounded(s),
    ensures
        windows_bounded(spec_release_all(s, epochs, now).0),
        spec_release_all(s, epochs, now).0.max_pending_epochs == s.max_pending_epochs,
    decreases epochs.len(),
{
    if epochs.len() > 0 {
        lemma_release_bounded(s, epochs[0], ReleaseReason::AggregationDeadline, now);
        let (s1, r) = spec_release(s, epochs[0], ReleaseReason::AggregationDeadline, now);
        if r is Ok {
            lemma_release_all_bounded(s1, epochs.drop_first(), now);
        }
    }
}

proof fn lemma_with_entry_bounded(s: AssemblerView, epoch_number: u64, remote_pts: u64, t: u64)
    requires
        windows_bounded(s),
        spec_capacity(s, epoch_number) is Ok,
    ensures
        windows_bounded(spec_with_entry(s, epoch_number, remote_pts, t)),
{
    lemma_find_first(s.pending, at_or_after(epoch_number));
}

pub(crate) proof fn lemma_with_entry_found(s: AssemblerView, epoch_number: u64, remote_pts: u64, t: u64)
    ensures
        ({
            let s4 = spec_with_entry(s, epoch_number, remote_pts, t);
            &&& pending_at(s4.pending, epoch_number) is Some
            &&& 0 <= pending_at(s4.pending, epoch_number)->0 < s4.pending.len()
            &&& s4.pending[pending_at(s4.pending, epoch_number)->0].epoch_number == epoch_number
        }),
{
    let s4 = spec_with_entry(s, epoch_number, remote_pts, t);
    lemma_find_first(s.pending, has_epoch(epoch_number));
    lemma_find_first(s.pending, at_or_after(epoch_number));
    if pending_at(s.pending, epoch_number) is None {
        let slot = pending_slot(s.pending, epoch_number);
        assert(has_epoch(epoch_number)(s4.pending[slot]));
    }
    lemma_find_first(s4.pending, has_epoch(epoch_number));
}

/// A new assembler is within its windows.
pub proof fn law_new_assembler_bounded(p: StemConfigParts, max_pending_epochs: nat)
    ensures
        windows_bounded(initial_assembler(p, max_pending_epochs)),
{
}

/// Inserting a group keeps the pending and released windows bounded.
pub proof fn law_insert_keeps_windows(s: AssemblerView, g: GroupView, t: u64)
    requires
        windows_bounded(s),
    ensures
        windows_bounded(spec_insert(s, g, t).0),
{
    let h = g.header;
    if let Ok(s1) = spec_observe(s, t) {
        let s3 = spec_sequence(spec_timeline(s1, h.epoch_number, h.remote_pts).0, g.source_id, h.epoch_number, h.group_sequence).0;
        if spec_capacity(s3, h.epoch_number) is Ok {
            lemma_with_entry_bounded(s3, h.epoch_number, h.remote_pts, t);
            let s4 = spec_with_entry(s3, h.epoch_number, h.remote_pts, t);
            let i = pending_at(s4.pending, h.epoch_number)->0;
            lemma_with_entry_found(s3, h.epoch_number, h.remote_pts, t);
            let pe = s4.pending[i];
            let pe2 = PendingView {
                groups: pe.groups.push(g),
                missing_reasons: without_reason(pe.missing_reasons, g.source_id),
                ..pe
            };
            let s5 = AssemblerView { pending: s4.pending.update(i, pe2), ..s4 };
            lemma_release_bounded(s5, h.epoch_number, ReleaseReason::Complete, t);
        }
    }
}

/// Recording a missing source keeps the pending and released windows bounded.
pub proof fn law_record_missing_keeps_windows(
    s: AssemblerView,
    epoch_number: u64,
    remote_pts: u64,
    source_id: Seq<char>,
    reason: MissingReason,
    t: u64,
)
    requires
        windows_bounded(s),
    ensures
        windows_bounded(spec_record_missing(s, epoch_number, remote_pts, source_id, reason, t).0),
{
    if let Ok(s1) = spec_observe(s, t) {
        let s2 = spec_timeline(s1, epoch_number, remote_pts).0;
        if spec_capacity(s2, epoch_number) is Ok {
            lemma_with_entry_bounded(s2, epoch_number, remote_pts, t);
            lemma_with_entry_found(s2, epoch_number, remote_pts, t);
        }
    }
}

/// A deadline sweep keeps the pending and released windows bounded.
pub proof fn law_release_due_keeps_windows(s: AssemblerView, now: u64)
    requires
        windows_bounded(s),
    ensures
        windows_bounded(spec_release_due(s, now).0),
{
    if let Ok(s1) = spec_observe(s, now) {
        let deadline_ns = (s1.config.latency_policy.aggregation_deadline_microseconds * 1000) as u64;
        lemma_release_all_bounded(s1, due_epochs(s1.pending, now, deadline_ns), now);
    }
}

pub(crate) proof fn lemma_find_push_absent<A>(s: Seq<A>, pred: spec_fn(A) -> bool, x: A)
    requires
        find_first(s, pred) is None,
        pred(x),
    ensures
        find_first(s.push(x), pred) == Some(s.len() as int),
{
    lemma_find_first(s, pred);
    assert forall|k: int| 0 <= k < s.len() implies !pred(#[trigger] s.push(x)[k]) by {
        assert(s.push(x)[k] == s[k]);
    }
    lemma_find_first_is(s.push(x), pred, s.len() as int);
}

pub(crate) proof fn lemma_find_update_same<A>(s: Seq<A>, pred: spec_fn(A) -> bool, i: int, v: A)
    requires
        find_first(s, pred) == Some(i),
        pred(v),
    ensures
        find_first(s.update(i, v), pred) == Some(i),
{
    lemma_find_first(s, pred);
    assert forall|k: int| 0 <= k < i implies !pred(#[trigger] s.update(i, v)[k]) by {
        assert(s.update(i, v)[k] == s[k]);
    }
    lemma_find_first_is(s.update(i, v), pred, i);
}

/// Once the sequence check for a source passed, the recorded origin accepts
/// the same group again and changes nothing.
proof fn lemma_sequence_settled(s: AssemblerView, source_id: Seq<char>, epoch_number: u64, group_sequence: u64, u: AssemblerView)
    requires
        spec_sequence(s, source_id, epoch_number, group_sequence).1 is Ok,
        u.source_sequence_origins == spec_sequence(s, source_id, epoch_number, group_sequence).0.source_sequence_origins,
    ensures
        spec_sequence(u, source_id, epoch_number, group_sequence) == (u, Ok::<(), StemError>(())),
{
    let os = s.source_sequence_origins;
    match origin_at(os, source_id) {
        Some(i) => {},
        None => {
            lemma_find_push_absent(os, origin_for(source_id), (source_id, epoch_number, group_sequence));
        },
    }
}

/// Offering again a group that was just accepted into a pending epoch is
/// idempotent: it is discarded as a duplicate and only the host time moves.
pub proof fn law_duplicate_insert_is_discarded(s: AssemblerView, g: GroupView, t1: u64, t2: u64)
    requires
        spec_insert(s, g, t1).1 == Ok::<InsertView, StemError>(InsertView::Accepted),
        spec_observe(spec_insert(s, g, t1).0, t2) is Ok,
    ensures
        spec_insert(spec_insert(s, g, t1).0, g, t2) == (
            AssemblerView { last_host_time_nanoseconds: Some(t2), ..spec_insert(s, g, t1).0 },
            Ok::<InsertView, StemError>(InsertView::DuplicateDiscarded),
        ),
{
    let h = g.header;
    let e = h.epoch_number;
    let s1 = spec_observe(s, t1)->Ok_0;
    let s2 = spec_timeline(s1, e, h.remote_pts).0;
    let s3 = spec_sequence(s2, g.source_id, e, h.group_sequence).0;
    let s4 = spec_with_entry(s3, e, h.remote_pts, t1);
    lemma_with_entry_found(s3, e, h.remote_pts, t1);
    let i = pending_at(s4.pending, e)->0;
    let pe = s4.pending[i];
    let pe2 = PendingView {
        groups: pe.groups.push(g),
        missing_reasons: without_reason(pe.missing_reasons, g.source_id),
        ..pe
    };
    let s5 = AssemblerView { pending: s4.pending.update(i, pe2), ..s4 };
    assert(spec_insert(s, g, t1).0 == s5);
    let u1 = AssemblerView { last_host_time_nanoseconds: Some(t2), ..s5 };
    assert(spec_observe(s5, t2) == Ok::<AssemblerView, StemError>(u1));
    assert(!spec_was_released(u1, e));
    assert(spec_timeline(u1, e, h.remote_pts) == (u1, Ok::<(), StemError>(())));
    lemma_sequence_settled(s2, g.source_id, e, h.group_sequence, u1);
    lemma_find_update_same(s4.pending, has_epoch(e), i, pe2);
    assert(pending_at(u1.pending, e) == Some(i));
    assert(spec_with_entry(u1, e, h.remote_pts, t2) == u1);
    lemma_find_push_absent(pe.groups, group_for_ref(h.source_ref), g);
    assert(group_with_ref(pe2.groups, h.source_ref) == Some(pe.groups.len() as int));
}

/// A release by completion has every expected source present.
pub proof fn law_complete_release_is_safe(s: AssemblerView, epoch_number: u64, at: u64)
    requires
        spec_release(s, epoch_number, ReleaseReason::Complete, at).1 is Ok,
    ensures
        spec_is_safe_complete(spec_release(s, epoch_number, ReleaseReason::Complete, at).1->Ok_0),
{
}

/// An insert that completes an epoch releases that epoch, safely complete.
pub proof fn law_insert_release_is_safe(s: AssemblerView, g: GroupView, t: u64)
    requires
        spec_insert(s, g, t).1 matches Ok(InsertView::Released(_)),
    ensures
        spec_insert(s, g, t).1 matches Ok(InsertView::Released(r)) && spec_is_safe_complete(r)
            && r.epoch_number == g.header.epoch_number && r.released_at_host_time_nanoseconds == t,
{
    let h = g.header;
    if let Ok(s1) = spec_observe(s, t) {
        let s3 = spec_sequence(spec_timeline(s1, h.epoch_number, h.remote_pts).0, g.source_id, h.epoch_number, h.group_sequence).0;
        let s4 = spec_with_entry(s3, h.epoch_number, h.remote_pts, t);
        let i = pending_at(s4.pending, h.epoch_number)->0;
        let pe = s4.pending[i];
        let pe2 = PendingView {
            groups: pe.groups.push(g),
            missing_reasons: without_reason(pe.missing_reasons, g.source_id),
            ..pe
        };
        let s5 = AssemblerView { pending: s4.pending.update(i, pe2), ..s4 };
        if spec_release(s5, h.epoch_number, ReleaseReason::Complete, t).1 is Ok {
            law_complete_release_is_safe(s5, h.epoch_number, t);
        }
    }
}

/// A released epoch lists every expected source once, in source-map order;
/// a present source has a payload, an encoding and a group sequence and no
/// missing reason, and a source without a group has none of those, is
/// missing as required or optional as the map says, and carries a reason.
pub proof fn law_release_lists_expected_sources(s: AssemblerView, epoch_number: u64, reason: ReleaseReason, at: u64)
    requires
        spec_release(s, epoch_number, reason, at).1 is Ok,
    ensures
        ({
            let r = spec_release(s, epoch_number, reason, at).1->Ok_0;
            let expected = spec_expected_sources(s.config);
            &&& r.epoch_number == epoch_number
            &&& r.release_reason == reason
            &&& r.groups.len() == expected.len()
            &&& forall|i: int| 0 <= i < expected.len() ==> {
                let rg = #[trigger] r.groups[i];
                &&& rg.source_id == expected[i].source_id@
                &&& rg.required == expected[i].required
                &&& rg.channel_count == expected[i].channel_layout.channel_count
                &&& (rg.status == SourceStatus::Present <==> rg.payload is Some)
                &&& (rg.status == SourceStatus::Present <==> rg.encoding is Some)
                &&& (rg.status == SourceStatus::Present <==> rg.group_sequence is Some)
                &&& (rg.status == SourceStatus::Present <==> rg.missing_reason is None)
                &&& (rg.status != SourceStatus::Present ==> rg.status == (if expected[i].required {
                    SourceStatus::MissingRequired
                } else {
                    SourceStatus::MissingOptional
                }))
            }
        }),
{
}

/// An epoch that an insert releases counts as released from then on, so a
/// later group or report for it is discarded as late: each epoch is released
/// at most once (below the largest epoch number).
pub proof fn law_insert_release_marks_epoch(s: AssemblerView, g: GroupView, t: u64)
    requires
        spec_insert(s, g, t).1 matches Ok(InsertView::Released(_)),
        g.header.epoch_number < u64::MAX,
    ensures
        spec_was_released(spec_insert(s, g, t).0, g.header.epoch_number),
{
    let h = g.header;
    if let Ok(s1) = spec_observe(s, t) {
        let s3 = spec_sequence(spec_timeline(s1, h.epoch_number, h.remote_pts).0, g.source_id, h.epoch_number, h.group_sequence).0;
        let s4 = spec_with_entry(s3, h.epoch_number, h.remote_pts, t);
        let i = pending_at(s4.pending, h.epoch_number)->0;
        let pe = s4.pending[i];
        let pe2 = PendingView {
            groups: pe.groups.push(g),
            missing_reasons: without_reason(pe.missing_reasons, g.source_id),
            ..pe
        };
        let s5 = AssemblerView { pending: s4.pending.update(i, pe2), ..s4 };
        if spec_release(s5, h.epoch_number, ReleaseReason::Complete, t).1 is Ok {
            law_release_records_epoch(s5, h.epoch_number, ReleaseReason::Complete, t, h.epoch_number);
        }
    }
}

/// Pending epochs are kept in strictly ascending epoch order.
pub open spec fn epochs_ascending(ps: Seq<PendingView>) -> bool {
    forall|i: int, j: int| 0 <= i < j < ps.len() ==> #[trigger] ps[i].epoch_number < #[trigger] ps[j].epoch_number
}

pub open spec fn values_distinct(xs: Seq<u64>) -> bool {
    forall|i: int, j: int| 0 <= i < j < xs.len() ==> #[trigger] xs[i] != #[trigger] xs[j]
}

/// A pending epoch holds at most one group per source ref and at most one
/// missing reason per source.
pub open spec fn pending_well_formed(pe: PendingView) -> bool {
    &&& forall|i: int, j: int|
        0 <= i < j < pe.groups.len() ==> (#[trigger] pe.groups[i]).header.source_ref
            != (#[trigger] pe.groups[j]).header.source_ref
    &&& forall|i: int, j: int|
        0 <= i < j < pe.missing_reasons.len() ==> (#[trigger] pe.missing_reasons[i]).0
            != (#[trigger] pe.missing_reasons[j]).0
}

pub open spec fn origin_ids_distinct(os: Seq<(Seq<char>, u64, u64)>) -> bool {
    forall|i: int, j: int| 0 <= i < j < os.len() ==> (#[trigger] os[i]).0 != (#[trigger] os[j]).0
}

/// What the assembler's sequences keep, as an ordered map and sets would:
/// pending epochs ascending and unique, one group per source ref and one
/// reason per source in each, released epochs and sequence origins unique.
pub open spec fn assembler_invariant(s: AssemblerView) -> bool {
    &&& epochs_ascending(s.pending)
    &&& forall|k: int| 0 <= k < s.pending.len() ==> pending_well_formed(#[trigger] s.pending[k])
    &&& values_distinct(s.released_recent)
    &&& origin_ids_distinct(s.source_sequence_origins)
}

pub(crate) proof fn lemma_with_entry_invariant(s: AssemblerView, epoch_number: u64, remote_pts: u64, t: u64)
    requires
        assembler_invariant(s),
    ensures
        assembler_invariant(spec_with_entry(s, epoch_number, remote_pts, t)),
{
    let ps = s.pending;
    lemma_find_first(ps, has_epoch(epoch_number));
    lemma_find_first(ps, at_or_after(epoch_number));
    if pending_at(ps, epoch_number) is None {
        let slot = pending_slot(ps, epoch_number);
        let fresh = PendingView {
            epoch_number,
            remote_pts,
            first_observed_host_time_nanoseconds: t,
            groups: Seq::empty(),
            missing_reasons: Seq::empty(),
        };
        let qs = ps.insert(slot, fresh);
        assert forall|k: int| 0 <= k < ps.len() implies #[trigger] ps[k].epoch_number != epoch_number by {
            assert(!has_epoch(epoch_number)(ps[k]));
        }
        assert forall|k: int| 0 <= k < slot implies #[trigger] ps[k].epoch_number < epoch_number by {
            assert(!at_or_after(epoch_number)(ps[k]));
        }
        assert forall|k: int| slot <= k < ps.len() implies #[trigger] ps[k].epoch_number > epoch_number by {
            assert(at_or_after(epoch_number)(ps[slot]));
            if k > slot {
                assert(ps[slot].epoch_number < ps[k].epoch_number);
            }
        }
        assert forall|i: int, j: int| 0 <= i < j < qs.len() implies #[trigger] qs[i].epoch_number
            < #[trigger] qs[j].epoch_number by {
            if j < slot {
                assert(qs[i] == ps[i] && qs[j] == ps[j]);
            } else if j == slot {
                assert(qs[i] == ps[i]);
            } else if i < slot {
                assert(qs[i] == ps[i] && qs[j] == ps[j - 1]);
            } else if i == slot {
                assert(qs[j] == ps[j - 1]);
            } else {
                assert(qs[i] == ps[i - 1] && qs[j] == ps[j - 1]);
            }
        }
        assert forall|k: int| 0 <= k < qs.len() implies pending_well_formed(#[trigger] qs[k]) by {
            if k < slot {
                assert(qs[k] == ps[k]);
            } else if k > slot {
                assert(qs[k] == ps[k - 1]);
            }
        }
    }
}

pub(crate) proof fn lemma_update_invariant(s: AssemblerView, i: int, pe2: PendingView)
    requires
        assembler_invariant(s),
        0 <= i < s.pending.len(),
        pe2.epoch_number == s.pending[i].epoch_number,
        pending_well_formed(pe2),
    ensures
        assembler_invariant(AssemblerView { pending: s.pending.update(i, pe2), ..s }),
{
    let qs = s.pending.update(i, pe2);
    assert forall|a: int, b: int| 0 <= a < b < qs.len() implies #[trigger] qs[a].epoch_number
        < #[trigger] qs[b].epoch_number by {
        assert(s.pending[a].epoch_number < s.pending[b].epoch_number);
    }
    assert forall|k: int| 0 <= k < qs.len() implies pending_well_formed(#[trigger] qs[k]) by {
        if k != i {
            assert(qs[k] == s.pending[k]);
        }
    }
}

proof fn lemma_advance_distinct(recent: Seq<u64>, next: u64)
    requires
        values_distinct(recent),
    ensures
        values_distinct(advance_release(recent, next).0),
    decreases recent.len(),
{
    match recent_at(recent, next) {
        Some(i) => {
            lemma_find_first(recent, is_value(next));
            let r1 = recent.remove(i);
            assert forall|a: int, b: int| 0 <= a < b < r1.len() implies #[trigger] r1[a] != #[trigger] r1[b] by {
                let a0 = if a < i { a } else { a + 1 };
                let b0 = if b < i { b } else { b + 1 };
                assert(r1[a] == recent[a0] && r1[b] == recent[b0]);
            }
            lemma_advance_distinct(r1, saturating_next(next));
        },
        None => {},
    }
}

pub(crate) proof fn lemma_release_invariant(s: AssemblerView, epoch_number: u64, reason: ReleaseReason, at: u64)
    requires
        assembler_invariant(s),
    ensures
        assembler_invariant(spec_release(s, epoch_number, reason, at).0),
{
    lemma_find_first(s.pending, has_epoch(epoch_number));
    if let Some(i) = pending_at(s.pending, epoch_number) {
        let qs = s.pending.remove(i);
        assert forall|a: int, b: int| 0 <= a < b < qs.len() implies #[trigger] qs[a].epoch_number
            < #[trigger] qs[b].epoch_number by {
            let a0 = if a < i { a } else { a + 1 };
            let b0 = if b < i { b } else { b + 1 };
            assert(qs[a] == s.pending[a0] && qs[b] == s.pending[b0]);
        }
        assert forall|k: int| 0 <= k < qs.len() implies pending_well_formed(#[trigger] qs[k]) by {
            if k < i {
                assert(qs[k] == s.pending[k]);
            } else {
                assert(qs[k] == s.pending[k + 1]);
            }
        }
        let recent = s.released_recent;
        if !recent.contains(epoch_number) {
            let r2 = recent.push(epoch_number);
            assert forall|a: int, b: int| 0 <= a < b < r2.len() implies #[trigger] r2[a] != #[trigger] r2[b] by {
                if b == recent.len() {
                    assert(r2[a] == recent[a]);
                } else {
                    assert(r2[a] == recent[a] && r2[b] == recent[b]);
                }
            }
            lemma_advance_distinct(r2, s.next_contiguous_release);
        } else {
            lemma_advance_distinct(recent, s.next_contiguous_release);
        }
    }
}

proof fn lemma_release_all_invariant(s: AssemblerView, epochs: Seq<u64>, now: u64)
    requires
        assembler_invariant(s),
    ensures
        assembler_invariant(spec_release_all(s, epochs, now).0),
    decreases epochs.len(),
{
    if epochs.len() > 0 {
        lemma_release_invariant(s, epochs[0], ReleaseReason::AggregationDeadline, now);
        let (s1, r) = spec_release(s, epochs[0], ReleaseReason::AggregationDeadline, now);
        if r is Ok {
            lemma_release_all_invariant(s1, epochs.drop_first(), now);
        }
    }
}

pub(crate) proof fn lemma_sequence_invariant(s: AssemblerView, source_id: Seq<char>, epoch_number: u64, group_sequence: u64)
    requires
        assembler_invariant(s),
    ensures
        assembler_invariant(spec_sequence(s, source_id, epoch_number, group_sequence).0),
{
    let os = s.source_sequence_origins;
    lemma_find_first(os, origin_for(source_id));
    if origin_at(os, source_id) is None {
        let os2 = os.push((source_id, epoch_number, group_sequence));
        assert forall|a: int, b: int| 0 <= a < b < os2.len() implies (#[trigger] os2[a]).0 != (#[trigger] os2[b]).0 by {
            if b == os.len() {
                assert(os2[a] == os[a]);
                assert(!origin_for(source_id)(os[a]));
            } else {
                assert(os2[a] == os[a] && os2[b] == os[b]);
            }
        }
    }
}

/// A new assembler keeps the invariant.
pub proof fn law_new_assembler_invariant(p: StemConfigParts, max_pending_epochs: nat)
    ensures
        assembler_invariant(initial_assembler(p, max_pending_epochs)),
{
}

/// Inserting a group keeps the assembler invariant.
pub proof fn law_insert_keeps_invariant(s: AssemblerView, g: GroupView, t: u64)
    requires
        assembler_invariant(s),
    ensures
        assembler_invariant(spec_insert(s, g, t).0),
{
    let h = g.header;
    if let Ok(s1) = spec_observe(s, t) {
        let s2 = spec_timeline(s1, h.epoch_number, h.remote_pts).0;
        lemma_sequence_invariant(s2, g.source_id, h.epoch_number, h.group_sequence);
        let s3 = spec_sequence(s2, g.source_id, h.epoch_number, h.group_sequence).0;
        lemma_with_entry_invariant(s3, h.epoch_number, h.remote_pts, t);
        lemma_with_entry_found(s3, h.epoch_number, h.remote_pts, t);
        let s4 = spec_with_entry(s3, h.epoch_number, h.remote_pts, t);
        let i = pending_at(s4.pending, h.epoch_number)->0;
        let pe = s4.pending[i];
        if group_with_ref(pe.groups, h.source_ref) is None {
            lemma_find_first(pe.groups, group_for_ref(h.source_ref));
            lemma_find_first(pe.missing_reasons, reason_for(g.source_id));
            let groups2 = pe.groups.push(g);
            let reasons2 = without_reason(pe.missing_reasons, g.source_id);
            assert(pending_well_formed(pe));
            assert forall|a: int, b: int| 0 <= a < b < groups2.len() implies (#[trigger] groups2[a]).header.source_ref
                != (#[trigger] groups2[b]).header.source_ref by {
                if b == pe.groups.len() {
                    assert(groups2[a] == pe.groups[a]);
                    assert(!group_for_ref(h.source_ref)(pe.groups[a]));
                } else {
                    assert(groups2[a] == pe.groups[a] && groups2[b] == pe.groups[b]);
                }
            }
            if let Some(j) = reason_at(pe.missing_reasons, g.source_id) {
                let rs = pe.missing_reasons;
                assert forall|a: int, b: int| 0 <= a < b < reasons2.len() implies (#[trigger] reasons2[a]).0
                    != (#[trigger] reasons2[b]).0 by {
                    let a0 = if a < j { a } else { a + 1 };
                    let b0 = if b < j { b } else { b + 1 };
                    assert(reasons2[a] == rs[a0] && reasons2[b] == rs[b0]);
                }
            }
            let pe2 = PendingView { groups: groups2, missing_reasons: reasons2, ..pe };
            assert(pending_well_formed(pe2));
            lemma_update_invariant(s4, i, pe2);
            let s5 = AssemblerView { pending: s4.pending.update(i, pe2), ..s4 };
            lemma_release_invariant(s5, h.epoch_number, ReleaseReason::Complete, t);
        }
    }
}

/// Recording a missing source keeps the assembler invariant.
pub proof fn law_record_missing_keeps_invariant(
    s: AssemblerView,
    epoch_number: u64,
    remote_pts: u64,
    source_id: Seq<char>,
    reason: MissingReason,
    t: u64,
)
    requires
        assembler_invariant(s),
    ensures
        assembler_invariant(spec_record_missing(s, epoch_number, remote_pts, source_id, reason, t).0),
{
    if let Ok(s1) = spec_observe(s, t) {
        let s2 = spec_timeline(s1, epoch_number, remote_pts).0;
        lemma_with_entry_invariant(s2, epoch_number, remote_pts, t);
        lemma_with_entry_found(s2, epoch_number, remote_pts, t);
        let s3 = spec_with_entry(s2, epoch_number, remote_pts, t);
        let i = pending_at(s3.pending, epoch_number)->0;
        let pe = s3.pending[i];
        let rs = pe.missing_reasons;
        let rs2 = with_reason(rs, source_id, reason);
        lemma_find_first(rs, reason_for(source_id));
        assert(pending_well_formed(pe));
        match reason_at(rs, source_id) {
            Some(j) => {
                assert forall|a: int, b: int| 0 <= a < b < rs2.len() implies (#[trigger] rs2[a]).0
                    != (#[trigger] rs2[b]).0 by {
                    assert(rs2[a].0 == rs[a].0 && rs2[b].0 == rs[b].0);
                }
            },
            None => {
                assert forall|a: int, b: int| 0 <= a < b < rs2.len() implies (#[trigger] rs2[a]).0
                    != (#[trigger] rs2[b]).0 by {
                    if b == rs.len() {
                        assert(rs2[a] == rs[a]);
                        assert(!reason_for(source_id)(rs[a]));
                    } else {
                        assert(rs2[a] == rs[a] && rs2[b] == rs[b]);
                    }
                }
            },
        }
        let pe2 = PendingView { missing_reasons: rs2, ..pe };
        assert(pending_well_formed(pe2));
        lemma_update_invariant(s3, i, pe2);
    }
}

/// A deadline sweep keeps the assembler invariant.
pub proof fn law_release_due_keeps_invariant(s: AssemblerView, now: u64)
    requires
        assembler_invariant(s),
    ensures
        assembler_invariant(spec_release_due(s, now).0),
{
    if let Ok(s1) = spec_observe(s, now) {
        let deadline_ns = (s1.config.latency_policy.aggregation_deadline_microseconds * 1000) as u64;
        lemma_release_all_invariant(s1, due_epochs(s1.pending, now, deadline_ns), now);
    }
}

pub(crate) proof fn lemma_due_epochs_ascending(ps: Seq<PendingView>, now: u64, deadline_ns: u64)
    requires
        epochs_ascending(ps),
    ensures
        forall|i: int, j: int|
            0 <= i < j < due_epochs(ps, now, deadline_ns).len() ==> #[trigger] due_epochs(ps, now, deadline_ns)[i]
                < #[trigger] due_epochs(ps, now, deadline_ns)[j],
        forall|k: int|
            0 <= k < due_epochs(ps, now, deadline_ns).len() ==> exists|m: int|
                0 <= m < ps.len() && #[trigger] due_epochs(ps, now, deadline_ns)[k] == ps[m].epoch_number,
    decreases ps.len(),
{
    if ps.len() > 0 {
        let front = ps.drop_last();
        assert forall|i: int, j: int| 0 <= i < j < front.len() implies #[trigger] front[i].epoch_number
            < #[trigger] front[j].epoch_number by {
            assert(front[i] == ps[i] && front[j] == ps[j]);
        }
        lemma_due_epochs_ascending(front, now, deadline_ns);
        let rest = due_epochs(front, now, deadline_ns);
        let due = due_epochs(ps, now, deadline_ns);
        assert forall|k: int| 0 <= k < rest.len() implies #[trigger] rest[k] < ps.last().epoch_number by {
            let m = choose|m: int| 0 <= m < front.len() && rest[k] == front[m].epoch_number;
            assert(front[m] == ps[m]);
            assert(ps[m].epoch_number < ps[ps.len() - 1].epoch_number);
        }
        assert forall|k: int| 0 <= k < rest.len() implies exists|m: int|
            0 <= m < ps.len() && #[trigger] rest[k] == ps[m].epoch_number by {
            let m = choose|m: int| 0 <= m < front.len() && rest[k] == front[m].epoch_number;
            assert(front[m] == ps[m]);
        }
        if crate::epoch::pending_due(ps.last(), now, deadline_ns) {
            assert(due[due.len() - 1] == ps[ps.len() - 1].epoch_number);
        }
    }
}

pub(crate) proof fn lemma_release_all_epochs(s: AssemblerView, epochs: Seq<u64>, now: u64)
    ensures
        spec_release_all(s, epochs, now).1 matches Ok(list) ==> list.len() == epochs.len() && forall|k: int|
            0 <= k < list.len() ==> (#[trigger] list[k]).epoch_number == epochs[k],
    decreases epochs.len(),
{
    if epochs.len() > 0 {
        let (s1, r) = spec_release(s, epochs[0], ReleaseReason::AggregationDeadline, now);
        if r is Ok {
            lemma_release_all_epochs(s1, epochs.drop_first(), now);
        }
    }
}

/// A deadline sweep releases the due epochs in strictly ascending epoch
/// order, as they sit in the pending order.
pub proof fn law_release_due_in_epoch_order(s: AssemblerView, now: u64)
    requires
        assembler_invariant(s),
    ensures
        spec_release_due(s, now).1 matches Ok(list) ==> forall|i: int, j: int|
            0 <= i < j < list.len() ==> (#[trigger] list[i]).epoch_number < (#[trigger] list[j]).epoch_number,
{
    if let Ok(s1) = spec_observe(s, now) {
        let deadline_ns = (s1.config.latency_policy.aggregation_deadline_microseconds * 1000) as u64;
        let due = due_epochs(s1.pending, now, deadline_ns);
        lemma_due_epochs_ascending(s1.pending, now, deadline_ns);
        lemma_release_all_epochs(s1, due, now);
    }
}

} // verus!
