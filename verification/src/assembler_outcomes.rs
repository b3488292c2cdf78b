//! What each epoch-assembler operation answers, stated over the abstract
//! transitions: the host clock across calls, when an insert releases, what a
//! missing-source report records, what a deadline sweep releases, where
//! released epochs sit on the timeline, and what holds after any sequence of
//! calls on a new assembler.
use vstd::prelude::*;

use crate::assembler_laws::{
    assembler_invariant, epochs_ascending, lemma_find_push_absent, lemma_find_update_same,
    lemma_release_invariant, lemma_with_entry_found, lemma_with_entry_invariant,
    lemma_sequence_invariant, law_insert_keeps_invariant,
};
use crate::common::{lemma_find_first, spec_safe};
use crate::config::source_admitted;
use crate::epoch::{
    group_with_ref, group_with_source, has_epoch, pending_at,
    pending_complete, reason_at, reason_for, spec_insert, spec_is_safe_complete, spec_observe,
    spec_record_missing, spec_release, spec_release_all, spec_release_due, spec_sequence, spec_timeline,
    spec_was_released, spec_with_entry, with_reason, without_reason, AssemblerView, InsertView,
    MissingReason, PendingView, ReleaseReason, ReleasedEpochView, SourceStatus,
};
use crate::error::{stem_error, StemError, StemErrorCode};
use crate::wire::GroupView;

verus! {

/// The answer to a host time that goes back or is not a safe integer.
pub open spec fn clock_refusal() -> StemError {
    stem_error(StemErrorCode::ClockRegression, "hostTimeNanoseconds")
}

/// A host time above the largest safe integer, or earlier than the last host
/// time that any call accepted, is refused by every operation with a clock
/// regression on `hostTimeNanoseconds`, and the assembler is left as it was.
pub proof fn law_host_time_regression_is_refused(
    s: AssemblerView,
    g: GroupView,
    epoch_number: u64,
    remote_pts: u64,
    source_id: Seq<char>,
    reason: MissingReason,
    t: u64,
)
    requires
        t > 9_007_199_254_740_991 || (s.last_host_time_nanoseconds matches Some(t0) && t < t0),
    ensures
        spec_insert(s, g, t) == (s, Err::<InsertView, StemError>(clock_refusal())),
        spec_record_missing(s, epoch_number, remote_pts, source_id, reason, t) == (
            s,
            Err::<InsertView, StemError>(clock_refusal()),
        ),
        spec_release_due(s, t) == (s, Err::<Seq<ReleasedEpochView>, StemError>(clock_refusal())),
{
}

proof fn lemma_release_all_keeps_clock(s: AssemblerView, epochs: Seq<u64>, now: u64)
    ensures
        spec_release_all(s, epochs, now).0.last_host_time_nanoseconds == s.last_host_time_nanoseconds,
    decreases epochs.len(),
{
    if epochs.len() > 0 {
        let (s1, r) = spec_release(s, epochs[0], ReleaseReason::AggregationDeadline, now);
        if r is Ok {
            lemma_release_all_keeps_clock(s1, epochs.drop_first(), now);
        }
    }
}

/// Every operation that accepts a host time (a safe integer, not before the
/// last accepted one) records it as the last accepted host time, whatever it
/// answers afterwards; with the law above, no later call can go back before it.
pub proof fn law_accepted_host_time_is_recorded(
    s: AssemblerView,
    g: GroupView,
    epoch_number: u64,
    remote_pts: u64,
    source_id: Seq<char>,
    reason: MissingReason,
    t: u64,
)
    requires
        t <= 9_007_199_254_740_991,
        s.last_host_time_nanoseconds matches Some(t0) ==> t0 <= t,
    ensures
        spec_insert(s, g, t).0.last_host_time_nanoseconds == Some(t),
        spec_record_missing(s, epoch_number, remote_pts, source_id, reason, t).0.last_host_time_nanoseconds
            == Some(t),
        spec_release_due(s, t).0.last_host_time_nanoseconds == Some(t),
{
    let s1 = spec_observe(s, t)->Ok_0;
    let deadline_ns = (s1.config.latency_policy.aggregation_deadline_microseconds * 1000) as u64;
    lemma_release_all_keeps_clock(s1, crate::epoch::due_epochs(s1.pending, t, deadline_ns), t);
}

/// The epoch is no longer pending after it was removed from strictly
/// ascending pending epochs.
proof fn lemma_removed_not_pending(ps: Seq<PendingView>, i: int, e: u64)
    requires
        epochs_ascending(ps),
        0 <= i < ps.len(),
        ps[i].epoch_number == e,
    ensures
        pending_at(ps.remove(i), e) is None,
{
    let qs = ps.remove(i);
    assert forall|k: int| 0 <= k < qs.len() implies !has_epoch(e)(#[trigger] qs[k]) by {
        if k < i {
            assert(qs[k] == ps[k]);
            assert(ps[k].epoch_number < ps[i].epoch_number);
        } else {
            assert(qs[k] == ps[k + 1]);
            assert(ps[i].epoch_number < ps[k + 1].epoch_number);
        }
    }
    lemma_find_first(qs, has_epoch(e));
}

/// What an accepted insert answers. A group for an epoch that was already
/// released is discarded as late, and only then. Otherwise the insert
/// releases the epoch exactly when, with the group added, every expected
/// source has a group: a release is by completion, of that epoch, at the
/// insert's host time, safely complete, and the epoch is no longer pending;
/// an accepted group is stored in its pending epoch, which is not yet complete.
pub proof fn law_insert_outcome(s: AssemblerView, g: GroupView, t: u64)
    requires
        assembler_invariant(s),
        spec_observe(s, t) is Ok,
    ensures
        ({
            let (s2, r) = spec_insert(s, g, t);
            let e = g.header.epoch_number;
            &&& (r == Ok::<InsertView, StemError>(InsertView::LateDiscarded) <==> spec_was_released(s, e))
            &&& (r matches Ok(InsertView::Released(x)) ==> {
                &&& x.epoch_number == e
                &&& x.release_reason == ReleaseReason::Complete
                &&& x.released_at_host_time_nanoseconds == t
                &&& spec_is_safe_complete(x)
                &&& pending_at(s2.pending, e) is None
            })
            &&& (r == Ok::<InsertView, StemError>(InsertView::Accepted) ==> {
                &&& pending_at(s2.pending, e) is Some
                &&& s2.pending[pending_at(s2.pending, e)->0].groups.contains(g)
                &&& !pending_complete(s2.config, s2.pending[pending_at(s2.pending, e)->0])
                &&& exists|k: int|
                    0 <= k < crate::config::spec_expected_sources(s.config).len() && group_with_source(
                        s2.pending[pending_at(s2.pending, e)->0].groups,
                        (#[trigger] crate::config::spec_expected_sources(s.config)[k]).source_id@,
                    ) is None
            })
            &&& r != Err::<InsertView, StemError>(
                stem_error(StemErrorCode::EpochGeometryMismatch, "completeRelease"),
            )
        }),
{
    let h = g.header;
    let e = h.epoch_number;
    let s1 = spec_observe(s, t)->Ok_0;
    if !spec_was_released(s1, e) && crate::epoch::group_binding_check(s1.config, g) is Ok {
        let s2 = spec_timeline(s1, e, h.remote_pts).0;
        lemma_sequence_invariant(s2, g.source_id, e, h.group_sequence);
        let s3 = spec_sequence(s2, g.source_id, e, h.group_sequence).0;
        lemma_with_entry_invariant(s3, e, h.remote_pts, t);
        lemma_with_entry_found(s3, e, h.remote_pts, t);
        let s4 = spec_with_entry(s3, e, h.remote_pts, t);
        let i = pending_at(s4.pending, e)->0;
        let pe = s4.pending[i];
        if group_with_ref(pe.groups, h.source_ref) is None {
            let pe2 = PendingView {
                groups: pe.groups.push(g),
                missing_reasons: without_reason(pe.missing_reasons, g.source_id),
                ..pe
            };
            let s5 = AssemblerView { pending: s4.pending.update(i, pe2), ..s4 };
            lemma_find_update_same(s4.pending, has_epoch(e), i, pe2);
            assert(pe2.groups[pe.groups.len() as int] == g);
            assert(s5.pending[i] == pe2);
            if pending_complete(s5.config, pe2) {
                // the pending epochs stay strictly ascending before the release
                assert forall|a: int, b: int| 0 <= a < b < s5.pending.len() implies #[trigger] s5.pending[a].epoch_number
                    < #[trigger] s5.pending[b].epoch_number by {
                    assert(s4.pending[a].epoch_number < s4.pending[b].epoch_number);
                }
                if spec_release(s5, e, ReleaseReason::Complete, t).1 is Ok {
                    lemma_removed_not_pending(s5.pending, i, e);
                }
            }
        }
    }
}

/// What an accepted missing-source report answers. It never releases an
/// epoch. A report for an epoch that was already released is discarded as
/// late, and only then; otherwise a source that the config does not admit is
/// refused with `SourceNotAuthorized` on `sourceId`. An accepted report leaves
/// the epoch pending, and either the source already has a group there or the
/// reported reason is the one recorded for it.
pub proof fn law_record_missing_outcome(
    s: AssemblerView,
    epoch_number: u64,
    remote_pts: u64,
    source_id: Seq<char>,
    reason: MissingReason,
    t: u64,
)
    requires
        assembler_invariant(s),
        spec_observe(s, t) is Ok,
    ensures
        ({
            let (s2, r) = spec_record_missing(s, epoch_number, remote_pts, source_id, reason, t);
            &&& !(r matches Ok(InsertView::Released(_)))
            &&& (r == Ok::<InsertView, StemError>(InsertView::LateDiscarded) <==> spec_was_released(s, epoch_number))
            &&& (!spec_was_released(s, epoch_number) && !source_admitted(s.config, source_id) ==> r == Err::<
                InsertView,
                StemError,
            >(stem_error(StemErrorCode::SourceNotAuthorized, "sourceId")))
            &&& (r == Ok::<InsertView, StemError>(InsertView::Accepted) ==> reason_is_recorded(
                s2,
                epoch_number,
                source_id,
                reason,
            ))
        }),
{
    let s1 = spec_observe(s, t)->Ok_0;
    if !spec_was_released(s1, epoch_number) && source_admitted(s1.config, source_id) {
        let s2 = spec_timeline(s1, epoch_number, remote_pts).0;
        lemma_with_entry_found(s2, epoch_number, remote_pts, t);
        let s3 = spec_with_entry(s2, epoch_number, remote_pts, t);
        let i = pending_at(s3.pending, epoch_number)->0;
        let pe = s3.pending[i];
        if group_with_source(pe.groups, source_id) is None {
            let rs = pe.missing_reasons;
            let rs2 = with_reason(rs, source_id, reason);
            let pe2 = PendingView { missing_reasons: rs2, ..pe };
            lemma_find_update_same(s3.pending, has_epoch(epoch_number), i, pe2);
            match reason_at(rs, source_id) {
                Some(j) => {
                    lemma_find_first(rs, reason_for(source_id));
                    lemma_find_update_same(rs, reason_for(source_id), j, (rs[j].0, reason));
                },
                None => {
                    lemma_find_push_absent(rs, reason_for(source_id), (source_id, reason));
                },
            }
        }
    }
}

/// The epoch is pending, and the source either has a group in it or is
/// recorded as missing for the given reason.
pub open spec fn reason_is_recorded(s: AssemblerView, epoch_number: u64, source_id: Seq<char>, reason: MissingReason) -> bool {
    &&& pending_at(s.pending, epoch_number) is Some
    &&& {
        let pe = s.pending[pending_at(s.pending, epoch_number)->0];
        ||| group_with_source(pe.groups, source_id) is Some
        ||| (reason_at(pe.missing_reasons, source_id) matches Some(j) && pe.missing_reasons[j].1 == reason)
    }
}

/// When an epoch in which a source is recorded as missing for a reason is
/// released, the source is listed either present or missing for that reason.
pub proof fn law_release_carries_recorded_reason(
    s: AssemblerView,
    epoch_number: u64,
    source_id: Seq<char>,
    reason: MissingReason,
    release_reason: ReleaseReason,
    at: u64,
)
    requires
        reason_is_recorded(s, epoch_number, source_id, reason),
    ensures
        spec_release(s, epoch_number, release_reason, at).1 matches Ok(x) ==> forall|k: int|
            0 <= k < x.groups.len() && (#[trigger] x.groups[k]).source_id == source_id ==> x.groups[k].status
                == SourceStatus::Present || x.groups[k].missing_reason == Some(reason),
{
}

/// An epoch with a pending entry.
pub open spec fn is_pending(s: AssemblerView, epoch_number: u64) -> bool {
    exists|k: int| 0 <= k < s.pending.len() && (#[trigger] s.pending[k]).epoch_number == epoch_number
}

/// The aggregation deadline in nanoseconds.
pub open spec fn deadline_nanoseconds(s: AssemblerView) -> u64 {
    (s.config.latency_policy.aggregation_deadline_microseconds * 1000) as u64
}

proof fn lemma_release_removes(s: AssemblerView, epoch_number: u64, reason: ReleaseReason, at: u64)
    requires
        epochs_ascending(s.pending),
        spec_release(s, epoch_number, reason, at).1 is Ok,
    ensures
        ({
            let s2 = spec_release(s, epoch_number, reason, at).0;
            &&& s2.config == s.config
            &&& forall|x: u64| is_pending(s2, x) <==> (is_pending(s, x) && x != epoch_number)
        }),
{
    lemma_find_first(s.pending, has_epoch(epoch_number));
    let i = pending_at(s.pending, epoch_number)->0;
    let ps = s.pending;
    let qs = ps.remove(i);
    let s2 = spec_release(s, epoch_number, reason, at).0;
    assert(s2.pending == qs);
    assert forall|x: u64| is_pending(s2, x) <==> (is_pending(s, x) && x != epoch_number) by {
        if is_pending(s2, x) {
            let k = choose|k: int| 0 <= k < qs.len() && (#[trigger] qs[k]).epoch_number == x;
            if k < i {
                assert(qs[k] == ps[k]);
                assert(ps[k].epoch_number < ps[i].epoch_number);
            } else {
                assert(qs[k] == ps[k + 1]);
                assert(ps[i].epoch_number < ps[k + 1].epoch_number);
            }
        }
        if is_pending(s, x) && x != epoch_number {
            let k = choose|k: int| 0 <= k < ps.len() && (#[trigger] ps[k]).epoch_number == x;
            if k < i {
                assert(qs[k] == ps[k]);
            } else {
                assert(k != i);
                assert(qs[k - 1] == ps[k]);
            }
        }
    }
}

proof fn lemma_release_all_outcome(s: AssemblerView, epochs: Seq<u64>, now: u64)
    requires
        assembler_invariant(s),
    ensures
        ({
            let (s2, r) = spec_release_all(s, epochs, now);
            r matches Ok(list) ==> {
                &&& list.len() == epochs.len()
                &&& forall|k: int|
                    0 <= k < list.len() ==> (#[trigger] list[k]).epoch_number == epochs[k]
                        && list[k].release_reason == ReleaseReason::AggregationDeadline
                        && list[k].released_at_host_time_nanoseconds == now
                &&& forall|x: u64| is_pending(s2, x) <==> (is_pending(s, x) && !epochs.contains(x))
                &&& forall|k: int|
                    0 <= k < epochs.len() && #[trigger] epochs[k] < u64::MAX ==> spec_was_released(s2, epochs[k])
            }
        }),
    decreases epochs.len(),
{
    if epochs.len() > 0 {
        let e0 = epochs[0];
        let rest = epochs.drop_first();
        let (s1, r) = spec_release(s, e0, ReleaseReason::AggregationDeadline, now);
        if r is Ok {
            lemma_release_invariant(s, e0, ReleaseReason::AggregationDeadline, now);
            lemma_release_removes(s, e0, ReleaseReason::AggregationDeadline, now);
            lemma_release_all_outcome(s1, rest, now);
            let (s2, r2) = spec_release_all(s1, rest, now);
            if r2 is Ok {
                let list = r2->Ok_0;
                assert forall|x: u64| is_pending(s2, x) <==> (is_pending(s, x) && !epochs.contains(x)) by {
                    if epochs.contains(x) {
                        let k = choose|k: int| 0 <= k < epochs.len() && epochs[k] == x;
                        if k > 0 {
                            assert(rest[k - 1] == x);
                        }
                    }
                    if rest.contains(x) {
                        let k = choose|k: int| 0 <= k < rest.len() && rest[k] == x;
                        assert(epochs[k + 1] == x);
                    }
                    assert(epochs[0] == e0);
                }
                assert forall|k: int| 0 <= k < epochs.len() && #[trigger] epochs[k] < u64::MAX implies spec_was_released(
                    s2,
                    epochs[k],
                ) by {
                    if k == 0 {
                        crate::assembler_laws::law_release_records_epoch(s, e0, ReleaseReason::AggregationDeadline, now, e0);
                        crate::assembler_laws::lemma_release_all_keeps_released(s1, rest, now, e0);
                    } else {
                        assert(rest[k - 1] == epochs[k]);
                    }
                }
            }
        }
    }
}

/// The epochs that `due_epochs` lists are exactly the pending epochs whose
/// first observation plus the deadline is not after `now` (and does not
/// overflow).
pub proof fn law_due_epochs_are_elapsed(ps: Seq<PendingView>, now: u64, deadline_ns: u64)
    ensures
        forall|e: u64|
            crate::epoch::due_epochs(ps, now, deadline_ns).contains(e) <==> exists|k: int|
                0 <= k < ps.len() && (#[trigger] ps[k]).epoch_number == e && crate::epoch::pending_due(
                    ps[k],
                    now,
                    deadline_ns,
                ),
        forall|pe: PendingView|
            #[trigger] crate::epoch::pending_due(pe, now, deadline_ns) <==> (pe.first_observed_host_time_nanoseconds
                + deadline_ns <= u64::MAX && pe.first_observed_host_time_nanoseconds + deadline_ns <= now),
    decreases ps.len(),
{
    if ps.len() > 0 {
        let front = ps.drop_last();
        law_due_epochs_are_elapsed(front, now, deadline_ns);
        let rest = crate::epoch::due_epochs(front, now, deadline_ns);
        let due = crate::epoch::due_epochs(ps, now, deadline_ns);
        assert forall|e: u64| due.contains(e) <==> exists|k: int|
            0 <= k < ps.len() && (#[trigger] ps[k]).epoch_number == e && crate::epoch::pending_due(
                ps[k],
                now,
                deadline_ns,
            ) by {
            if due.contains(e) {
                let j = choose|j: int| 0 <= j < due.len() && due[j] == e;
                if j < rest.len() {
                    assert(rest[j] == e);
                    assert(rest.contains(e));
                    let k = choose|k: int|
                        0 <= k < front.len() && (#[trigger] front[k]).epoch_number == e && crate::epoch::pending_due(
                            front[k],
                            now,
                            deadline_ns,
                        );
                    assert(front[k] == ps[k]);
                } else {
                    assert(ps[ps.len() - 1].epoch_number == e);
                }
            }
            if exists|k: int|
                0 <= k < ps.len() && (#[trigger] ps[k]).epoch_number == e && crate::epoch::pending_due(
                    ps[k],
                    now,
                    deadline_ns,
                ) {
                let k = choose|k: int|
                    0 <= k < ps.len() && (#[trigger] ps[k]).epoch_number == e && crate::epoch::pending_due(
                        ps[k],
                        now,
                        deadline_ns,
                    );
                if k < front.len() {
                    assert(front[k] == ps[k]);
                    assert(rest.contains(e));
                    let j = choose|j: int| 0 <= j < rest.len() && rest[j] == e;
                    assert(due[j] == e);
                } else {
                    assert(due[due.len() - 1] == e);
                }
            }
        }
    }
}

/// What an accepted deadline sweep answers: the due epochs (law above), one
/// release each, in the order of `due_epochs`, each by aggregation deadline
/// at `now`. After it the due epochs are no longer pending and count as
/// released (below the largest epoch number), and every other pending epoch
/// stays pending.
pub proof fn law_release_due_outcome(s: AssemblerView, now: u64)
    requires
        assembler_invariant(s),
        spec_observe(s, now) is Ok,
    ensures
        ({
            let due = crate::epoch::due_epochs(s.pending, now, deadline_nanoseconds(s));
            let (s2, r) = spec_release_due(s, now);
            r matches Ok(list) ==> {
                &&& list.len() == due.len()
                &&& forall|k: int|
                    0 <= k < list.len() ==> (#[trigger] list[k]).epoch_number == due[k]
                        && list[k].release_reason == ReleaseReason::AggregationDeadline
                        && list[k].released_at_host_time_nanoseconds == now
                &&& forall|x: u64| is_pending(s2, x) <==> (is_pending(s, x) && !due.contains(x))
                &&& forall|k: int| 0 <= k < due.len() && #[trigger] due[k] < u64::MAX ==> spec_was_released(s2, due[k])
            }
        }),
{
    let s1 = spec_observe(s, now)->Ok_0;
    lemma_release_all_outcome(s1, crate::epoch::due_epochs(s1.pending, now, deadline_nanoseconds(s1)), now);
    assert forall|x: u64| is_pending(s1, x) <==> is_pending(s, x) by {}
}

/// A pts on the timeline of an origin (epoch, pts): the origin's pts plus the
/// epoch distance times the frame size.
pub open spec fn on_timeline(origin: (u64, u64), frame_samples: u32, epoch_number: u64, remote_pts: u64) -> bool {
    origin.1 + (epoch_number - origin.0) * frame_samples == remote_pts
}

/// Every pending epoch's pts lies on the assembler's timeline, and there is
/// no pending epoch before the timeline has an origin.
pub open spec fn timeline_consistent(s: AssemblerView) -> bool {
    match s.timeline_origin {
        None => s.pending.len() == 0,
        Some(o) => forall|k: int|
            0 <= k < s.pending.len() ==> on_timeline(
                o,
                s.config.source_map.frame_samples,
                (#[trigger] s.pending[k]).epoch_number,
                s.pending[k].remote_pts,
            ),
    }
}

/// The timeline's origin, once fixed, stays, and the pending epochs stay on it.
pub open spec fn timeline_kept(s: AssemblerView, s2: AssemblerView) -> bool {
    &&& timeline_consistent(s2)
    &&& s.timeline_origin is Some ==> s2.timeline_origin == s.timeline_origin
}

proof fn lemma_timeline_step(s: AssemblerView, epoch_number: u64, remote_pts: u64)
    requires
        timeline_consistent(s),
    ensures
        ({
            let (s2, r) = spec_timeline(s, epoch_number, remote_pts);
            &&& timeline_kept(s, s2)
            &&& s2.pending == s.pending && s2.config == s.config
            &&& r is Ok ==> (s2.timeline_origin matches Some(o) && on_timeline(
                o,
                s.config.source_map.frame_samples,
                epoch_number,
                remote_pts,
            ))
        }),
{
    if epoch_number >= s.config.effective_epoch && s.timeline_origin is None {
        let f = s.config.source_map.frame_samples;
        assert((epoch_number - epoch_number) * f == 0) by (nonlinear_arith);
        assert(on_timeline((epoch_number, remote_pts), f, epoch_number, remote_pts));
    }
}

proof fn lemma_with_entry_timeline(s: AssemblerView, epoch_number: u64, remote_pts: u64, t: u64)
    requires
        timeline_consistent(s),
        s.timeline_origin matches Some(o) && on_timeline(o, s.config.source_map.frame_samples, epoch_number, remote_pts),
    ensures
        timeline_kept(s, spec_with_entry(s, epoch_number, remote_pts, t)),
{
    if pending_at(s.pending, epoch_number) is None {
        let ps = s.pending;
        let slot = crate::epoch::pending_slot(ps, epoch_number);
        lemma_find_first(ps, crate::epoch::at_or_after(epoch_number));
        let qs = spec_with_entry(s, epoch_number, remote_pts, t).pending;
        assert forall|k: int| 0 <= k < qs.len() implies on_timeline(
            s.timeline_origin->0,
            s.config.source_map.frame_samples,
            (#[trigger] qs[k]).epoch_number,
            qs[k].remote_pts,
        ) by {
            if k < slot {
                assert(qs[k] == ps[k]);
            } else if k > slot {
                assert(qs[k] == ps[k - 1]);
            }
        }
    }
}

proof fn lemma_update_timeline(s: AssemblerView, i: int, pe2: PendingView)
    requires
        timeline_consistent(s),
        0 <= i < s.pending.len(),
        pe2.epoch_number == s.pending[i].epoch_number,
        pe2.remote_pts == s.pending[i].remote_pts,
    ensures
        timeline_kept(s, AssemblerView { pending: s.pending.update(i, pe2), ..s }),
{
    let qs = s.pending.update(i, pe2);
    assert forall|k: int| 0 <= k < qs.len() implies on_timeline(
        s.timeline_origin->0,
        s.config.source_map.frame_samples,
        (#[trigger] qs[k]).epoch_number,
        qs[k].remote_pts,
    ) by {
        assert(s.pending[k].epoch_number == qs[k].epoch_number);
    }
}

proof fn lemma_release_timeline(s: AssemblerView, epoch_number: u64, reason: ReleaseReason, at: u64)
    requires
        timeline_consistent(s),
    ensures
        timeline_kept(s, spec_release(s, epoch_number, reason, at).0),
        spec_release(s, epoch_number, reason, at).1 matches Ok(x) ==> (s.timeline_origin matches Some(o)
            && on_timeline(o, s.config.source_map.frame_samples, x.epoch_number, x.remote_pts)
            && x.frame_samples == s.config.source_map.frame_samples),
{
    lemma_find_first(s.pending, has_epoch(epoch_number));
    if let Some(i) = pending_at(s.pending, epoch_number) {
        let qs = s.pending.remove(i);
        assert(s.pending[i].epoch_number == epoch_number);
        if s.timeline_origin is Some {
            assert forall|k: int| 0 <= k < qs.len() implies on_timeline(
                s.timeline_origin->0,
                s.config.source_map.frame_samples,
                (#[trigger] qs[k]).epoch_number,
                qs[k].remote_pts,
            ) by {
                if k < i {
                    assert(qs[k] == s.pending[k]);
                } else {
                    assert(qs[k] == s.pending[k + 1]);
                }
            }
        }
    }
}

proof fn lemma_release_all_timeline(s: AssemblerView, epochs: Seq<u64>, now: u64)
    requires
        timeline_consistent(s),
    ensures
        timeline_kept(s, spec_release_all(s, epochs, now).0),
        spec_release_all(s, epochs, now).1 matches Ok(list) ==> forall|k: int|
            0 <= k < list.len() ==> released_on_timeline(s, #[trigger] list[k]),
    decreases epochs.len(),
{
    if epochs.len() > 0 {
        lemma_release_timeline(s, epochs[0], ReleaseReason::AggregationDeadline, now);
        let (s1, r) = spec_release(s, epochs[0], ReleaseReason::AggregationDeadline, now);
        if r is Ok {
            lemma_release_all_timeline(s1, epochs.drop_first(), now);
            let (s2, r2) = spec_release_all(s1, epochs.drop_first(), now);
            if r2 is Ok {
                let list = seq![r->Ok_0] + r2->Ok_0;
                assert forall|k: int| 0 <= k < list.len() implies released_on_timeline(s, #[trigger] list[k]) by {
                    if k > 0 {
                        assert(list[k] == (r2->Ok_0)[k - 1]);
                    }
                }
            }
        }
    }
}

/// A released epoch's pts lies on the state's timeline, with its frame size.
pub open spec fn released_on_timeline(s: AssemblerView, x: ReleasedEpochView) -> bool {
    &&& x.frame_samples == s.config.source_map.frame_samples
    &&& (s.timeline_origin matches Some(o) && on_timeline(o, x.frame_samples, x.epoch_number, x.remote_pts))
}

/// A new assembler has no timeline origin and no pending epoch.
pub proof fn law_new_assembler_timeline(p: crate::config::StemConfigParts, max_pending_epochs: nat)
    ensures
        timeline_consistent(crate::epoch::initial_assembler(p, max_pending_epochs)),
{
}

/// An insert keeps the timeline: a fixed origin stays and every pending
/// epoch's pts stays on it; a released epoch's pts lies on it too.
pub proof fn law_insert_keeps_timeline(s: AssemblerView, g: GroupView, t: u64)
    requires
        timeline_consistent(s),
    ensures
        timeline_kept(s, spec_insert(s, g, t).0),
        spec_insert(s, g, t).1 matches Ok(InsertView::Released(x)) ==> released_on_timeline(spec_insert(s, g, t).0, x),
{
    let h = g.header;
    let e = h.epoch_number;
    if let Ok(s1) = spec_observe(s, t) {
        if !spec_was_released(s1, e) && crate::epoch::group_binding_check(s1.config, g) is Ok {
            lemma_timeline_step(s1, e, h.remote_pts);
            let (s2, r2) = spec_timeline(s1, e, h.remote_pts);
            if r2 is Ok {
                let s3 = spec_sequence(s2, g.source_id, e, h.group_sequence).0;
                if crate::epoch::spec_capacity(s3, e) is Ok {
                    lemma_with_entry_timeline(s3, e, h.remote_pts, t);
                    lemma_with_entry_found(s3, e, h.remote_pts, t);
                    let s4 = spec_with_entry(s3, e, h.remote_pts, t);
                    let i = pending_at(s4.pending, e)->0;
                    let pe = s4.pending[i];
                    let pe2 = PendingView {
                        groups: pe.groups.push(g),
                        missing_reasons: without_reason(pe.missing_reasons, g.source_id),
                        ..pe
                    };
                    lemma_update_timeline(s4, i, pe2);
                    let s5 = AssemblerView { pending: s4.pending.update(i, pe2), ..s4 };
                    lemma_release_timeline(s5, e, ReleaseReason::Complete, t);
                }
            }
        }
    }
}

/// A missing-source report keeps the timeline.
pub proof fn law_record_missing_keeps_timeline(
    s: AssemblerView,
    epoch_number: u64,
    remote_pts: u64,
    source_id: Seq<char>,
    reason: MissingReason,
    t: u64,
)
    requires
        timeline_consistent(s),
    ensures
        timeline_kept(s, spec_record_missing(s, epoch_number, remote_pts, source_id, reason, t).0),
{
    if let Ok(s1) = spec_observe(s, t) {
        if !spec_was_released(s1, epoch_number) && source_admitted(s1.config, source_id) {
            lemma_timeline_step(s1, epoch_number, remote_pts);
            let (s2, r2) = spec_timeline(s1, epoch_number, remote_pts);
            if r2 is Ok && crate::epoch::spec_capacity(s2, epoch_number) is Ok {
                lemma_with_entry_timeline(s2, epoch_number, remote_pts, t);
                lemma_with_entry_found(s2, epoch_number, remote_pts, t);
                let s3 = spec_with_entry(s2, epoch_number, remote_pts, t);
                let i = pending_at(s3.pending, epoch_number)->0;
                let pe = s3.pending[i];
                let pe2 = PendingView { missing_reasons: with_reason(pe.missing_reasons, source_id, reason), ..pe };
                lemma_update_timeline(s3, i, pe2);
            }
        }
    }
}

/// A deadline sweep keeps the timeline, and every epoch it releases has its
/// pts on it.
pub proof fn law_release_due_keeps_timeline(s: AssemblerView, now: u64)
    requires
        timeline_consistent(s),
    ensures
        timeline_kept(s, spec_release_due(s, now).0),
        spec_release_due(s, now).1 matches Ok(list) ==> forall|k: int|
            0 <= k < list.len() ==> released_on_timeline(spec_release_due(s, now).0, #[trigger] list[k]),
{
    if let Ok(s1) = spec_observe(s, now) {
        let due = crate::epoch::due_epochs(s1.pending, now, deadline_nanoseconds(s1));
        lemma_release_all_timeline(s1, due, now);
        lemma_release_all_keeps_fixed(s1, due, now);
    }
}

/// A released epoch's pts lies on the timeline of the state it was released
/// from, with that state's frame size.
pub proof fn law_released_epoch_on_timeline(s: AssemblerView, epoch_number: u64, reason: ReleaseReason, at: u64)
    requires
        timeline_consistent(s),
    ensures
        spec_release(s, epoch_number, reason, at).1 matches Ok(x) ==> (s.timeline_origin matches Some(o)
            && on_timeline(o, x.frame_samples, x.epoch_number, x.remote_pts)),
{
    lemma_release_timeline(s, epoch_number, reason, at);
}

/// Two epochs on one timeline are as far apart in pts as their epoch numbers
/// are, times the frame size.
pub proof fn law_timeline_spacing(origin: (u64, u64), frame_samples: u32, e1: u64, p1: u64, e2: u64, p2: u64)
    requires
        on_timeline(origin, frame_samples, e1, p1),
        on_timeline(origin, frame_samples, e2, p2),
    ensures
        p2 - p1 == (e2 - e1) * frame_samples,
{
    assert((e2 - origin.0) * frame_samples - (e1 - origin.0) * frame_samples == (e2 - e1) * frame_samples)
        by (nonlinear_arith);
}

/// One call on an assembler, with its arguments.
pub enum AssemblerCall {
    Insert { group: GroupView, host_time: u64 },
    RecordMissing {
        epoch_number: u64,
        remote_pts: u64,
        source_id: Seq<char>,
        reason: MissingReason,
        host_time: u64,
    },
    ReleaseDue { host_time: u64 },
}

/// The state after one call.
pub open spec fn call_step(s: AssemblerView, c: AssemblerCall) -> AssemblerView {
    match c {
        AssemblerCall::Insert { group, host_time } => spec_insert(s, group, host_time).0,
        AssemblerCall::RecordMissing { epoch_number, remote_pts, source_id, reason, host_time } => spec_record_missing(
            s,
            epoch_number,
            remote_pts,
            source_id,
            reason,
            host_time,
        ).0,
        AssemblerCall::ReleaseDue { host_time } => spec_release_due(s, host_time).0,
    }
}

/// The state after a sequence of calls, made in order.
pub open spec fn run_calls(s: AssemblerView, calls: Seq<AssemblerCall>) -> AssemblerView
    decreases calls.len(),
{
    if calls.len() == 0 {
        s
    } else {
        run_calls(call_step(s, calls[0]), calls.drop_first())
    }
}

proof fn lemma_release_all_keeps_fixed(s: AssemblerView, epochs: Seq<u64>, now: u64)
    ensures
        spec_release_all(s, epochs, now).0.config == s.config,
        spec_release_all(s, epochs, now).0.max_pending_epochs == s.max_pending_epochs,
    decreases epochs.len(),
{
    if epochs.len() > 0 {
        let (s1, r) = spec_release(s, epochs[0], ReleaseReason::AggregationDeadline, now);
        if r is Ok {
            lemma_release_all_keeps_fixed(s1, epochs.drop_first(), now);
        }
    }
}

proof fn lemma_step_keeps_laws(s: AssemblerView, c: AssemblerCall)
    requires
        crate::assembler_laws::windows_bounded(s),
        assembler_invariant(s),
        timeline_consistent(s),
        pending_unreleased(s),
        groups_bound(s),
    ensures
        ({
            let s2 = call_step(s, c);
            &&& pending_unreleased(s2)
            &&& groups_bound(s2)
            &&& crate::assembler_laws::windows_bounded(s2)
            &&& assembler_invariant(s2)
            &&& timeline_consistent(s2)
            &&& (s.timeline_origin is Some ==> s2.timeline_origin == s.timeline_origin)
            &&& s2.config == s.config
            &&& s2.max_pending_epochs == s.max_pending_epochs
        }),
{
    match c {
        AssemblerCall::Insert { group, host_time } => {
            crate::assembler_laws::law_insert_keeps_windows(s, group, host_time);
            law_insert_keeps_invariant(s, group, host_time);
            law_insert_keeps_pending_unreleased(s, group, host_time);
            law_insert_keeps_groups_bound(s, group, host_time);
            law_insert_keeps_timeline(s, group, host_time);
            let h = group.header;
            if let Ok(s1) = spec_observe(s, host_time) {
                let s3 = spec_sequence(spec_timeline(s1, h.epoch_number, h.remote_pts).0, group.source_id, h.epoch_number, h.group_sequence).0;
                let s4 = spec_with_entry(s3, h.epoch_number, h.remote_pts, host_time);
                lemma_with_entry_found(s3, h.epoch_number, h.remote_pts, host_time);
            }
        },
        AssemblerCall::RecordMissing { epoch_number, remote_pts, source_id, reason, host_time } => {
            crate::assembler_laws::law_record_missing_keeps_windows(s, epoch_number, remote_pts, source_id, reason, host_time);
            crate::assembler_laws::law_record_missing_keeps_invariant(s, epoch_number, remote_pts, source_id, reason, host_time);
            law_record_missing_keeps_timeline(s, epoch_number, remote_pts, source_id, reason, host_time);
            law_record_missing_keeps_pending_unreleased(s, epoch_number, remote_pts, source_id, reason, host_time);
            law_record_missing_keeps_groups_bound(s, epoch_number, remote_pts, source_id, reason, host_time);
        },
        AssemblerCall::ReleaseDue { host_time } => {
            crate::assembler_laws::law_release_due_keeps_windows(s, host_time);
            crate::assembler_laws::law_release_due_keeps_invariant(s, host_time);
            law_release_due_keeps_timeline(s, host_time);
            law_release_due_keeps_pending_unreleased(s, host_time);
            law_release_due_keeps_groups_bound(s, host_time);
            if let Ok(s1) = spec_observe(s, host_time) {
                lemma_release_all_keeps_fixed(s1, crate::epoch::due_epochs(s1.pending, host_time, deadline_nanoseconds(s1)), host_time);
            }
        },
    }
}

proof fn lemma_run_keeps_laws(s: AssemblerView, calls: Seq<AssemblerCall>)
    requires
        crate::assembler_laws::windows_bounded(s),
        assembler_invariant(s),
        timeline_consistent(s),
        pending_unreleased(s),
        groups_bound(s),
    ensures
        ({
            let s2 = run_calls(s, calls);
            &&& pending_unreleased(s2)
            &&& groups_bound(s2)
            &&& crate::assembler_laws::windows_bounded(s2)
            &&& assembler_invariant(s2)
            &&& timeline_consistent(s2)
            &&& (s.timeline_origin is Some ==> s2.timeline_origin == s.timeline_origin)
            &&& s2.config == s.config
            &&& s2.max_pending_epochs == s.max_pending_epochs
        }),
    decreases calls.len(),
{
    if calls.len() > 0 {
        lemma_step_keeps_laws(s, calls[0]);
        lemma_run_keeps_laws(call_step(s, calls[0]), calls.drop_first());
    }
}

/// After any sequence of calls on a new assembler, the config and capacity
/// are those it was made with, at most that many epochs are pending, the
/// released window stays bounded, the pending epochs stay ascending and
/// free of repeats, no pending epoch counts as released, every pending group
/// is bound to the config and its epoch, and every pending epoch's pts lies
/// on the timeline.
pub proof fn law_assembler_runs_keep_laws(p: crate::config::StemConfigParts, max_pending_epochs: nat, calls: Seq<AssemblerCall>)
    ensures
        ({
            let s = run_calls(crate::epoch::initial_assembler(p, max_pending_epochs), calls);
            &&& s.config == p
            &&& s.max_pending_epochs == max_pending_epochs
            &&& s.pending.len() <= max_pending_epochs
            &&& s.released_recent.len() <= crate::epoch::RELEASED_WINDOW_EPOCHS
            &&& assembler_invariant(s)
            &&& timeline_consistent(s)
            &&& pending_unreleased(s)
            &&& groups_bound(s)
        }),
{
    let s0 = crate::epoch::initial_assembler(p, max_pending_epochs);
    crate::assembler_laws::law_new_assembler_bounded(p, max_pending_epochs);
    lemma_run_keeps_laws(s0, calls);
}

/// The epochs that one call releases, in the order it returns them.
pub open spec fn call_releases(s: AssemblerView, c: AssemblerCall) -> Seq<ReleasedEpochView> {
    match c {
        AssemblerCall::Insert { group, host_time } => match spec_insert(s, group, host_time).1 {
            Ok(InsertView::Released(x)) => seq![x],
            _ => Seq::empty(),
        },
        AssemblerCall::RecordMissing { .. } => Seq::empty(),
        AssemblerCall::ReleaseDue { host_time } => match spec_release_due(s, host_time).1 {
            Ok(list) => list,
            Err(_) => Seq::empty(),
        },
    }
}

/// The epochs that a sequence of calls releases, in order.
pub open spec fn run_releases(s: AssemblerView, calls: Seq<AssemblerCall>) -> Seq<ReleasedEpochView>
    decreases calls.len(),
{
    if calls.len() == 0 {
        Seq::empty()
    } else {
        call_releases(s, calls[0]) + run_releases(call_step(s, calls[0]), calls.drop_first())
    }
}

proof fn lemma_run_releases_on_timeline(s: AssemblerView, calls: Seq<AssemblerCall>)
    requires
        crate::assembler_laws::windows_bounded(s),
        assembler_invariant(s),
        timeline_consistent(s),
        pending_unreleased(s),
        groups_bound(s),
    ensures
        forall|k: int|
            0 <= k < run_releases(s, calls).len() ==> released_on_timeline(
                run_calls(s, calls),
                #[trigger] run_releases(s, calls)[k],
            ),
    decreases calls.len(),
{
    if calls.len() > 0 {
        let c = calls[0];
        let s1 = call_step(s, c);
        lemma_step_keeps_laws(s, c);
        lemma_run_keeps_laws(s1, calls.drop_first());
        lemma_run_releases_on_timeline(s1, calls.drop_first());
        let first = call_releases(s, c);
        let rest = run_releases(s1, calls.drop_first());
        let fin = run_calls(s1, calls.drop_first());
        assert forall|k: int| 0 <= k < first.len() implies released_on_timeline(s1, #[trigger] first[k]) by {
            match c {
                AssemblerCall::Insert { group, host_time } => {
                    law_insert_keeps_timeline(s, group, host_time);
                },
                AssemblerCall::RecordMissing { .. } => {},
                AssemblerCall::ReleaseDue { host_time } => {
                    law_release_due_keeps_timeline(s, host_time);
                },
            }
        }
        assert(run_releases(s, calls) == first + rest);
        assert(run_calls(s, calls) == fin);
        assert forall|k: int| 0 <= k < run_releases(s, calls).len() implies released_on_timeline(
            fin,
            #[trigger] run_releases(s, calls)[k],
        ) by {
            if k < first.len() {
                assert(run_releases(s, calls)[k] == first[k]);
                assert(released_on_timeline(s1, first[k]));
            } else {
                assert(run_releases(s, calls)[k] == rest[k - first.len()]);
            }
        }
    }
}

/// Any two epochs that a new assembler releases over a sequence of calls,
/// by completion or by deadline, carry the config's frame size, and their
/// pts are as far apart as their epoch numbers times that frame size.
pub proof fn law_released_epochs_keep_frame_spacing(
    p: crate::config::StemConfigParts,
    max_pending_epochs: nat,
    calls: Seq<AssemblerCall>,
)
    ensures
        ({
            let rs = run_releases(crate::epoch::initial_assembler(p, max_pending_epochs), calls);
            &&& forall|i: int| 0 <= i < rs.len() ==> (#[trigger] rs[i]).frame_samples == p.source_map.frame_samples
            &&& forall|i: int, j: int|
                0 <= i < rs.len() && 0 <= j < rs.len() ==> (#[trigger] rs[j]).remote_pts - (#[trigger] rs[i]).remote_pts
                    == (rs[j].epoch_number - rs[i].epoch_number) * p.source_map.frame_samples
        }),
{
    let s0 = crate::epoch::initial_assembler(p, max_pending_epochs);
    crate::assembler_laws::law_new_assembler_bounded(p, max_pending_epochs);
    lemma_run_keeps_laws(s0, calls);
    lemma_run_releases_on_timeline(s0, calls);
    let rs = run_releases(s0, calls);
    let fin = run_calls(s0, calls);
    assert forall|i: int, j: int| 0 <= i < rs.len() && 0 <= j < rs.len() implies (#[trigger] rs[j]).remote_pts
        - (#[trigger] rs[i]).remote_pts == (rs[j].epoch_number - rs[i].epoch_number) * p.source_map.frame_samples by {
        assert(released_on_timeline(fin, rs[i]));
        assert(released_on_timeline(fin, rs[j]));
        let o = fin.timeline_origin->0;
        law_timeline_spacing(o, p.source_map.frame_samples, rs[i].epoch_number, rs[i].remote_pts, rs[j].epoch_number, rs[j].remote_pts);
    }
}

/// No pending epoch counts as released.
pub open spec fn pending_unreleased(s: AssemblerView) -> bool {
    forall|k: int| 0 <= k < s.pending.len() ==> !spec_was_released(s, #[trigger] s.pending[k].epoch_number)
}

proof fn lemma_advance_keeps_unreleased(recent: Seq<u64>, next: u64, x: u64)
    requires
        !recent.contains(x),
        next <= x,
    ensures
        ({
            let (r2, n2) = crate::epoch::advance_release(recent, next);
            !r2.contains(x) && n2 <= x
        }),
    decreases recent.len(),
{
    match crate::epoch::recent_at(recent, next) {
        Some(i) => {
            lemma_find_first(recent, crate::epoch::is_value(next));
            let r1 = recent.remove(i);
            assert(recent[i] == next);
            if r1.contains(x) {
                let k = choose|k: int| 0 <= k < r1.len() && r1[k] == x;
                if k < i {
                    assert(recent[k] == x);
                } else {
                    assert(recent[k + 1] == x);
                }
            }
            lemma_advance_keeps_unreleased(r1, crate::epoch::saturating_next(next), x);
        },
        None => {},
    }
}

proof fn lemma_release_keeps_unreleased(s: AssemblerView, epoch_number: u64, reason: ReleaseReason, at: u64)
    requires
        epochs_ascending(s.pending),
        pending_unreleased(s),
    ensures
        pending_unreleased(spec_release(s, epoch_number, reason, at).0),
{
    lemma_find_first(s.pending, has_epoch(epoch_number));
    let window_full = epoch_number != s.next_contiguous_release && !s.released_recent.contains(epoch_number)
        && s.released_recent.len() >= crate::epoch::RELEASED_WINDOW_EPOCHS;
    if !window_full && pending_at(s.pending, epoch_number) is Some {
        let i = pending_at(s.pending, epoch_number)->0;
        let ps = s.pending;
        let qs = ps.remove(i);
        let s2 = spec_release(s, epoch_number, reason, at).0;
        assert(s2.pending == qs);
        assert forall|k: int| 0 <= k < s2.pending.len() implies !spec_was_released(
            s2,
            #[trigger] s2.pending[k].epoch_number,
        ) by {
            let k0 = if k < i { k } else { k + 1 };
            assert(qs[k] == ps[k0]);
            let x = ps[k0].epoch_number;
            assert(!spec_was_released(s, ps[k0].epoch_number));
            if k0 < i {
                assert(ps[k0].epoch_number < ps[i].epoch_number);
            } else {
                assert(ps[i].epoch_number < ps[k0].epoch_number);
            }
            if s2.released_recent != s.released_recent || s2.next_contiguous_release != s.next_contiguous_release {
                let recent = s.released_recent;
                let recent2 = if recent.contains(epoch_number) { recent } else { recent.push(epoch_number) };
                if recent2.contains(x) {
                    let j = choose|j: int| 0 <= j < recent2.len() && recent2[j] == x;
                    if j < recent.len() {
                        assert(recent[j] == x);
                    }
                }
                lemma_advance_keeps_unreleased(recent2, s.next_contiguous_release, x);
            }
        }
    }
}

proof fn lemma_release_all_keeps_unreleased(s: AssemblerView, epochs: Seq<u64>, now: u64)
    requires
        assembler_invariant(s),
        pending_unreleased(s),
    ensures
        pending_unreleased(spec_release_all(s, epochs, now).0),
    decreases epochs.len(),
{
    if epochs.len() > 0 {
        lemma_release_keeps_unreleased(s, epochs[0], ReleaseReason::AggregationDeadline, now);
        lemma_release_invariant(s, epochs[0], ReleaseReason::AggregationDeadline, now);
        let (s1, r) = spec_release(s, epochs[0], ReleaseReason::AggregationDeadline, now);
        if r is Ok {
            lemma_release_all_keeps_unreleased(s1, epochs.drop_first(), now);
        }
    }
}

proof fn lemma_with_entry_unreleased(s: AssemblerView, epoch_number: u64, remote_pts: u64, t: u64)
    requires
        pending_unreleased(s),
        !spec_was_released(s, epoch_number),
    ensures
        pending_unreleased(spec_with_entry(s, epoch_number, remote_pts, t)),
{
    if pending_at(s.pending, epoch_number) is None {
        let ps = s.pending;
        let slot = crate::epoch::pending_slot(ps, epoch_number);
        lemma_find_first(ps, crate::epoch::at_or_after(epoch_number));
        let s2 = spec_with_entry(s, epoch_number, remote_pts, t);
        let qs = s2.pending;
        assert forall|k: int| 0 <= k < qs.len() implies !spec_was_released(s2, #[trigger] qs[k].epoch_number) by {
            if k < slot {
                assert(qs[k] == ps[k]);
            } else if k > slot {
                assert(qs[k] == ps[k - 1]);
            }
        }
    }
}

proof fn lemma_update_unreleased(s: AssemblerView, i: int, pe2: PendingView)
    requires
        pending_unreleased(s),
        0 <= i < s.pending.len(),
        pe2.epoch_number == s.pending[i].epoch_number,
    ensures
        pending_unreleased(AssemblerView { pending: s.pending.update(i, pe2), ..s }),
{
    let s2 = AssemblerView { pending: s.pending.update(i, pe2), ..s };
    assert forall|k: int| 0 <= k < s2.pending.len() implies !spec_was_released(s2, #[trigger] s2.pending[k].epoch_number) by {
        assert(s.pending[k].epoch_number == s2.pending[k].epoch_number);
    }
}

/// An insert keeps every pending epoch unreleased.
pub proof fn law_insert_keeps_pending_unreleased(s: AssemblerView, g: GroupView, t: u64)
    requires
        assembler_invariant(s),
        pending_unreleased(s),
    ensures
        pending_unreleased(spec_insert(s, g, t).0),
{
    let h = g.header;
    let e = h.epoch_number;
    if let Ok(s1) = spec_observe(s, t) {
        if !spec_was_released(s1, e) && crate::epoch::group_binding_check(s1.config, g) is Ok {
            let s2 = spec_timeline(s1, e, h.remote_pts).0;
            lemma_sequence_invariant(s2, g.source_id, e, h.group_sequence);
            let s3 = spec_sequence(s2, g.source_id, e, h.group_sequence).0;
            lemma_with_entry_unreleased(s3, e, h.remote_pts, t);
            lemma_with_entry_invariant(s3, e, h.remote_pts, t);
            lemma_with_entry_found(s3, e, h.remote_pts, t);
            let s4 = spec_with_entry(s3, e, h.remote_pts, t);
            let i = pending_at(s4.pending, e)->0;
            let pe = s4.pending[i];
            let pe2 = PendingView {
                groups: pe.groups.push(g),
                missing_reasons: without_reason(pe.missing_reasons, g.source_id),
                ..pe
            };
            lemma_update_unreleased(s4, i, pe2);
            let s5 = AssemblerView { pending: s4.pending.update(i, pe2), ..s4 };
            assert forall|a: int, b: int| 0 <= a < b < s5.pending.len() implies #[trigger] s5.pending[a].epoch_number
                < #[trigger] s5.pending[b].epoch_number by {
                assert(s4.pending[a].epoch_number < s4.pending[b].epoch_number);
            }
            lemma_release_keeps_unreleased(s5, e, ReleaseReason::Complete, t);
        }
    }
}

/// A missing-source report keeps every pending epoch unreleased.
pub proof fn law_record_missing_keeps_pending_unreleased(
    s: AssemblerView,
    epoch_number: u64,
    remote_pts: u64,
    source_id: Seq<char>,
    reason: MissingReason,
    t: u64,
)
    requires
        pending_unreleased(s),
    ensures
        pending_unreleased(spec_record_missing(s, epoch_number, remote_pts, source_id, reason, t).0),
{
    if let Ok(s1) = spec_observe(s, t) {
        if !spec_was_released(s1, epoch_number) && source_admitted(s1.config, source_id) {
            let s2 = spec_timeline(s1, epoch_number, remote_pts).0;
            lemma_with_entry_unreleased(s2, epoch_number, remote_pts, t);
            lemma_with_entry_found(s2, epoch_number, remote_pts, t);
            let s3 = spec_with_entry(s2, epoch_number, remote_pts, t);
            let i = pending_at(s3.pending, epoch_number)->0;
            let pe = s3.pending[i];
            let pe2 = PendingView { missing_reasons: with_reason(pe.missing_reasons, source_id, reason), ..pe };
            lemma_update_unreleased(s3, i, pe2);
        }
    }
}

/// A deadline sweep keeps every pending epoch unreleased.
pub proof fn law_release_due_keeps_pending_unreleased(s: AssemblerView, now: u64)
    requires
        assembler_invariant(s),
        pending_unreleased(s),
    ensures
        pending_unreleased(spec_release_due(s, now).0),
{
    if let Ok(s1) = spec_observe(s, now) {
        lemma_release_all_keeps_unreleased(s1, crate::epoch::due_epochs(s1.pending, now, deadline_nanoseconds(s1)), now);
    }
}

proof fn lemma_step_keeps_released(s: AssemblerView, c: AssemblerCall, e: u64)
    requires
        spec_was_released(s, e),
        e < u64::MAX,
    ensures
        spec_was_released(call_step(s, c), e),
{
    match c {
        AssemblerCall::Insert { group, host_time } => {
            crate::assembler_laws::law_insert_keeps_releases(s, group, host_time, e);
        },
        AssemblerCall::RecordMissing { epoch_number, remote_pts, source_id, reason, host_time } => {
            crate::assembler_laws::law_record_missing_keeps_releases(s, epoch_number, remote_pts, source_id, reason, host_time, e);
        },
        AssemblerCall::ReleaseDue { host_time } => {
            crate::assembler_laws::law_release_due_keeps_releases(s, host_time, e);
        },
    }
}

proof fn lemma_run_keeps_released(s: AssemblerView, calls: Seq<AssemblerCall>, e: u64)
    requires
        spec_was_released(s, e),
        e < u64::MAX,
    ensures
        spec_was_released(run_calls(s, calls), e),
    decreases calls.len(),
{
    if calls.len() > 0 {
        lemma_step_keeps_released(s, calls[0], e);
        lemma_run_keeps_released(call_step(s, calls[0]), calls.drop_first(), e);
    }
}

proof fn lemma_call_releases_fresh(s: AssemblerView, c: AssemblerCall)
    requires
        assembler_invariant(s),
        pending_unreleased(s),
    ensures
        ({
            let rs = call_releases(s, c);
            let s1 = call_step(s, c);
            &&& forall|k: int|
                0 <= k < rs.len() && (#[trigger] rs[k]).epoch_number < u64::MAX ==> !spec_was_released(
                    s,
                    rs[k].epoch_number,
                ) && spec_was_released(s1, rs[k].epoch_number)
            &&& forall|i: int, j: int|
                0 <= i < j < rs.len() ==> (#[trigger] rs[i]).epoch_number != (#[trigger] rs[j]).epoch_number
        }),
{
    match c {
        AssemblerCall::Insert { group, host_time } => {
            if spec_observe(s, host_time) is Ok {
                law_insert_outcome(s, group, host_time);
                if spec_insert(s, group, host_time).1 matches Ok(InsertView::Released(_)) {
                    if group.header.epoch_number < u64::MAX {
                        crate::assembler_laws::law_insert_release_marks_epoch(s, group, host_time);
                    }
                }
            }
        },
        AssemblerCall::RecordMissing { .. } => {},
        AssemblerCall::ReleaseDue { host_time } => {
            if spec_observe(s, host_time) is Ok {
                law_release_due_outcome(s, host_time);
                let due = crate::epoch::due_epochs(s.pending, host_time, deadline_nanoseconds(s));
                law_due_epochs_are_elapsed(s.pending, host_time, deadline_nanoseconds(s));
                crate::assembler_laws::lemma_due_epochs_ascending(s.pending, host_time, deadline_nanoseconds(s));
                if spec_release_due(s, host_time).1 is Ok {
                    let rs = spec_release_due(s, host_time).1->Ok_0;
                    assert forall|k: int|
                        0 <= k < rs.len() && (#[trigger] rs[k]).epoch_number < u64::MAX implies !spec_was_released(
                        s,
                        rs[k].epoch_number,
                    ) && spec_was_released(call_step(s, c), rs[k].epoch_number) by {
                        assert(rs[k].epoch_number == due[k]);
                        assert(due.contains(due[k]));
                        let m = choose|m: int|
                            0 <= m < s.pending.len() && (#[trigger] s.pending[m]).epoch_number == due[k]
                                && crate::epoch::pending_due(s.pending[m], host_time, deadline_nanoseconds(s));
                        assert(!spec_was_released(s, s.pending[m].epoch_number));
                    }
                    assert forall|i: int, j: int| 0 <= i < j < rs.len() implies (#[trigger] rs[i]).epoch_number
                        != (#[trigger] rs[j]).epoch_number by {
                        assert(rs[i].epoch_number == due[i] && rs[j].epoch_number == due[j]);
                        assert(due[i] < due[j]);
                    }
                }
            }
        },
    }
}

proof fn lemma_run_releases_once(s: AssemblerView, calls: Seq<AssemblerCall>)
    requires
        crate::assembler_laws::windows_bounded(s),
        assembler_invariant(s),
        timeline_consistent(s),
        pending_unreleased(s),
        groups_bound(s),
    ensures
        ({
            let rs = run_releases(s, calls);
            let fin = run_calls(s, calls);
            &&& forall|k: int|
                0 <= k < rs.len() && (#[trigger] rs[k]).epoch_number < u64::MAX ==> !spec_was_released(
                    s,
                    rs[k].epoch_number,
                ) && spec_was_released(fin, rs[k].epoch_number)
            &&& forall|i: int, j: int|
                0 <= i < j < rs.len() && (#[trigger] rs[i]).epoch_number < u64::MAX ==> rs[i].epoch_number
                    != (#[trigger] rs[j]).epoch_number
        }),
    decreases calls.len(),
{
    if calls.len() > 0 {
        let c = calls[0];
        let tail = calls.drop_first();
        let s1 = call_step(s, c);
        lemma_step_keeps_laws(s, c);
        lemma_call_releases_fresh(s, c);
        lemma_run_releases_once(s1, tail);
        let first = call_releases(s, c);
        let rest = run_releases(s1, tail);
        let fin = run_calls(s1, tail);
        let rs = run_releases(s, calls);
        assert(rs == first + rest);
        assert(run_calls(s, calls) == fin);
        assert forall|k: int|
            0 <= k < rs.len() && (#[trigger] rs[k]).epoch_number < u64::MAX implies !spec_was_released(
            s,
            rs[k].epoch_number,
        ) && spec_was_released(fin, rs[k].epoch_number) by {
            if k < first.len() {
                assert(rs[k] == first[k]);
                lemma_run_keeps_released(s1, tail, first[k].epoch_number);
            } else {
                assert(rs[k] == rest[k - first.len()]);
                if spec_was_released(s, rs[k].epoch_number) {
                    lemma_step_keeps_released(s, c, rs[k].epoch_number);
                }
            }
        }
        assert forall|i: int, j: int|
            0 <= i < j < rs.len() && (#[trigger] rs[i]).epoch_number < u64::MAX implies rs[i].epoch_number
            != (#[trigger] rs[j]).epoch_number by {
            if j < first.len() {
                assert(rs[i] == first[i] && rs[j] == first[j]);
            } else if i >= first.len() {
                assert(rs[i] == rest[i - first.len()] && rs[j] == rest[j - first.len()]);
            } else {
                assert(rs[i] == first[i] && rs[j] == rest[j - first.len()]);
                if rs[i].epoch_number == rs[j].epoch_number {
                    assert(spec_was_released(s1, first[i].epoch_number));
                    assert(!spec_was_released(s1, rest[j - first.len()].epoch_number));
                }
            }
        }
    }
}

/// A new assembler releases each epoch at most once over any sequence of
/// calls (below the largest epoch number, where the released marker
/// saturates), and every epoch it released counts as released afterwards,
/// so later input for it is discarded as late.
pub proof fn law_each_epoch_released_once(
    p: crate::config::StemConfigParts,
    max_pending_epochs: nat,
    calls: Seq<AssemblerCall>,
)
    ensures
        ({
            let s0 = crate::epoch::initial_assembler(p, max_pending_epochs);
            let rs = run_releases(s0, calls);
            &&& forall|i: int, j: int|
                0 <= i < j < rs.len() && (#[trigger] rs[i]).epoch_number < u64::MAX ==> rs[i].epoch_number
                    != (#[trigger] rs[j]).epoch_number
            &&& forall|k: int|
                0 <= k < rs.len() && (#[trigger] rs[k]).epoch_number < u64::MAX ==> spec_was_released(
                    run_calls(s0, calls),
                    rs[k].epoch_number,
                )
        }),
{
    let s0 = crate::epoch::initial_assembler(p, max_pending_epochs);
    crate::assembler_laws::law_new_assembler_bounded(p, max_pending_epochs);
    lemma_run_releases_once(s0, calls);
}

/// Every group held in a pending epoch is of that epoch and passed the
/// binding checks against the assembler's config.
pub open spec fn groups_bound(s: AssemblerView) -> bool {
    forall|k: int, j: int|
        0 <= k < s.pending.len() && 0 <= j < s.pending[k].groups.len() ==> {
            &&& crate::epoch::group_binding_check(s.config, #[trigger] s.pending[k].groups[j]) is Ok
            &&& s.pending[k].groups[j].header.epoch_number == s.pending[k].epoch_number
        }
}

proof fn lemma_release_keeps_bound(s: AssemblerView, epoch_number: u64, reason: ReleaseReason, at: u64)
    requires
        groups_bound(s),
    ensures
        groups_bound(spec_release(s, epoch_number, reason, at).0),
{
    lemma_find_first(s.pending, has_epoch(epoch_number));
    let s2 = spec_release(s, epoch_number, reason, at).0;
    if s2.pending != s.pending {
        let i = pending_at(s.pending, epoch_number)->0;
        assert(s2.pending == s.pending.remove(i));
        assert forall|k: int, j: int| 0 <= k < s2.pending.len() && 0 <= j < s2.pending[k].groups.len() implies {
            &&& crate::epoch::group_binding_check(s2.config, #[trigger] s2.pending[k].groups[j]) is Ok
            &&& s2.pending[k].groups[j].header.epoch_number == s2.pending[k].epoch_number
        } by {
            let k0 = if k < i { k } else { k + 1 };
            assert(s2.pending[k] == s.pending[k0]);
        }
    }
}

proof fn lemma_release_all_keeps_bound(s: AssemblerView, epochs: Seq<u64>, now: u64)
    requires
        groups_bound(s),
    ensures
        groups_bound(spec_release_all(s, epochs, now).0),
    decreases epochs.len(),
{
    if epochs.len() > 0 {
        lemma_release_keeps_bound(s, epochs[0], ReleaseReason::AggregationDeadline, now);
        let (s1, r) = spec_release(s, epochs[0], ReleaseReason::AggregationDeadline, now);
        if r is Ok {
            lemma_release_all_keeps_bound(s1, epochs.drop_first(), now);
        }
    }
}

proof fn lemma_with_entry_bound(s: AssemblerView, epoch_number: u64, remote_pts: u64, t: u64)
    requires
        groups_bound(s),
    ensures
        groups_bound(spec_with_entry(s, epoch_number, remote_pts, t)),
{
    if pending_at(s.pending, epoch_number) is None {
        let ps = s.pending;
        let slot = crate::epoch::pending_slot(ps, epoch_number);
        lemma_find_first(ps, crate::epoch::at_or_after(epoch_number));
        let s2 = spec_with_entry(s, epoch_number, remote_pts, t);
        let qs = s2.pending;
        assert forall|k: int, j: int| 0 <= k < qs.len() && 0 <= j < qs[k].groups.len() implies {
            &&& crate::epoch::group_binding_check(s2.config, #[trigger] qs[k].groups[j]) is Ok
            &&& qs[k].groups[j].header.epoch_number == qs[k].epoch_number
        } by {
            if k < slot {
                assert(qs[k] == ps[k]);
            } else if k > slot {
                assert(qs[k] == ps[k - 1]);
            }
        }
    }
}

/// An insert keeps every pending group bound to the config and its epoch.
pub proof fn law_insert_keeps_groups_bound(s: AssemblerView, g: GroupView, t: u64)
    requires
        groups_bound(s),
    ensures
        groups_bound(spec_insert(s, g, t).0),
{
    let h = g.header;
    let e = h.epoch_number;
    if let Ok(s1) = spec_observe(s, t) {
        if !spec_was_released(s1, e) && crate::epoch::group_binding_check(s1.config, g) is Ok {
            let s2 = spec_timeline(s1, e, h.remote_pts).0;
            let s3 = spec_sequence(s2, g.source_id, e, h.group_sequence).0;
            lemma_with_entry_bound(s3, e, h.remote_pts, t);
            lemma_with_entry_found(s3, e, h.remote_pts, t);
            let s4 = spec_with_entry(s3, e, h.remote_pts, t);
            let i = pending_at(s4.pending, e)->0;
            let pe = s4.pending[i];
            let pe2 = PendingView {
                groups: pe.groups.push(g),
                missing_reasons: without_reason(pe.missing_reasons, g.source_id),
                ..pe
            };
            let s5 = AssemblerView { pending: s4.pending.update(i, pe2), ..s4 };
            assert forall|k: int, j: int| 0 <= k < s5.pending.len() && 0 <= j < s5.pending[k].groups.len() implies {
                &&& crate::epoch::group_binding_check(s5.config, #[trigger] s5.pending[k].groups[j]) is Ok
                &&& s5.pending[k].groups[j].header.epoch_number == s5.pending[k].epoch_number
            } by {
                if k == i {
                    if j < pe.groups.len() {
                        assert(s5.pending[k].groups[j] == pe.groups[j]);
                    }
                }
            }
            lemma_release_keeps_bound(s5, e, ReleaseReason::Complete, t);
        }
    }
}

/// A missing-source report keeps every pending group bound.
pub proof fn law_record_missing_keeps_groups_bound(
    s: AssemblerView,
    epoch_number: u64,
    remote_pts: u64,
    source_id: Seq<char>,
    reason: MissingReason,
    t: u64,
)
    requires
        groups_bound(s),
    ensures
        groups_bound(spec_record_missing(s, epoch_number, remote_pts, source_id, reason, t).0),
{
    if let Ok(s1) = spec_observe(s, t) {
        if !spec_was_released(s1, epoch_number) && source_admitted(s1.config, source_id) {
            let s2 = spec_timeline(s1, epoch_number, remote_pts).0;
            lemma_with_entry_bound(s2, epoch_number, remote_pts, t);
            lemma_with_entry_found(s2, epoch_number, remote_pts, t);
            let s3 = spec_with_entry(s2, epoch_number, remote_pts, t);
            let i = pending_at(s3.pending, epoch_number)->0;
            let pe = s3.pending[i];
            let pe2 = PendingView { missing_reasons: with_reason(pe.missing_reasons, source_id, reason), ..pe };
            let s4 = AssemblerView { pending: s3.pending.update(i, pe2), ..s3 };
            assert forall|k: int, j: int| 0 <= k < s4.pending.len() && 0 <= j < s4.pending[k].groups.len() implies {
                &&& crate::epoch::group_binding_check(s4.config, #[trigger] s4.pending[k].groups[j]) is Ok
                &&& s4.pending[k].groups[j].header.epoch_number == s4.pending[k].epoch_number
            } by {
                assert(s4.pending[k].groups == s3.pending[k].groups);
            }
        }
    }
}

/// A deadline sweep keeps every pending group bound.
pub proof fn law_release_due_keeps_groups_bound(s: AssemblerView, now: u64)
    requires
        groups_bound(s),
    ensures
        groups_bound(spec_release_due(s, now).0),
{
    if let Ok(s1) = spec_observe(s, now) {
        lemma_release_all_keeps_bound(s1, crate::epoch::due_epochs(s1.pending, now, deadline_nanoseconds(s1)), now);
    }
}

/// The released source comes from the pending epoch's group for that
/// source: a group of that epoch, with its group sequence and payload.
pub open spec fn group_of_release(s: AssemblerView, epoch_number: u64, rg: crate::epoch::ReleasedGroupView) -> bool {
    let pe = s.pending[pending_at(s.pending, epoch_number)->0];
    group_with_source(pe.groups, rg.source_id) matches Some(j) && {
        let g = pe.groups[j];
        &&& g.header.epoch_number == epoch_number
        &&& rg.group_sequence == Some(g.header.group_sequence)
        &&& rg.payload == Some(g.payload)
    }
}

/// A released epoch carries the config's identity, generations, key epoch,
/// clock and frame size; each present source carries the encoding that the
/// config gives that source, and the group sequence and payload of a group
/// of that epoch.
pub proof fn law_release_carries_config_and_group_facts(s: AssemblerView, epoch_number: u64, reason: ReleaseReason, at: u64)
    requires
        groups_bound(s),
    ensures
        spec_release(s, epoch_number, reason, at).1 matches Ok(r) ==> {
            &&& r.identity == s.config.identity
            &&& r.config_generation == s.config.config_generation
            &&& r.source_map_version == s.config.source_map.version
            &&& r.key_epoch == s.config.key_epoch
            &&& r.source_clock_id == s.config.source_map.source_clock_id@
            &&& r.frame_samples == s.config.source_map.frame_samples
            &&& r.released_at_host_time_nanoseconds == at
            &&& forall|i: int|
                0 <= i < r.groups.len() && (#[trigger] r.groups[i]).status == SourceStatus::Present ==> {
                    &&& r.groups[i].encoding == crate::config::spec_encoding_for_source(s.config, r.groups[i].source_id)
                    &&& group_of_release(s, epoch_number, r.groups[i])
                }
        },
{
    lemma_find_first(s.pending, has_epoch(epoch_number));
    if let Ok(r) = spec_release(s, epoch_number, reason, at).1 {
        let k = pending_at(s.pending, epoch_number)->0;
        let pe = s.pending[k];
        let expected = crate::config::spec_expected_sources(s.config);
        assert forall|i: int| 0 <= i < r.groups.len() && (#[trigger] r.groups[i]).status == SourceStatus::Present implies {
            &&& r.groups[i].encoding == crate::config::spec_encoding_for_source(s.config, r.groups[i].source_id)
            &&& group_of_release(s, epoch_number, r.groups[i])
        } by {
            let src = expected[i];
            assert(r.groups[i] == crate::epoch::spec_released_group(src, pe));
            let j = group_with_source(pe.groups, src.source_id@)->0;
            lemma_find_first(pe.groups, crate::epoch::group_for_source(src.source_id@));
            let g = pe.groups[j];
            assert(crate::epoch::group_binding_check(s.config, pe.groups[j]) is Ok);
        }
    }
}

/// Every group held in a pending epoch has a payload of 1 to 16 MiB.
pub open spec fn payloads_sized(s: AssemblerView) -> bool {
    forall|k: int, j: int|
        0 <= k < s.pending.len() && 0 <= j < s.pending[k].groups.len() ==> crate::wire::payload_sized(
            #[trigger] s.pending[k].groups[j],
        )
}

proof fn lemma_release_keeps_sized(s: AssemblerView, epoch_number: u64, reason: ReleaseReason, at: u64)
    requires
        payloads_sized(s),
    ensures
        payloads_sized(spec_release(s, epoch_number, reason, at).0),
{
    lemma_find_first(s.pending, has_epoch(epoch_number));
    let s2 = spec_release(s, epoch_number, reason, at).0;
    if s2.pending != s.pending {
        let i = pending_at(s.pending, epoch_number)->0;
        assert(s2.pending == s.pending.remove(i));
        assert forall|k: int, j: int| 0 <= k < s2.pending.len() && 0 <= j < s2.pending[k].groups.len() implies crate::wire::payload_sized(
            #[trigger] s2.pending[k].groups[j],
        ) by {
            let k0 = if k < i { k } else { k + 1 };
            assert(s2.pending[k] == s.pending[k0]);
        }
    }
}

proof fn lemma_release_all_keeps_sized(s: AssemblerView, epochs: Seq<u64>, now: u64)
    requires
        payloads_sized(s),
    ensures
        payloads_sized(spec_release_all(s, epochs, now).0),
    decreases epochs.len(),
{
    if epochs.len() > 0 {
        lemma_release_keeps_sized(s, epochs[0], ReleaseReason::AggregationDeadline, now);
        let (s1, r) = spec_release(s, epochs[0], ReleaseReason::AggregationDeadline, now);
        if r is Ok {
            lemma_release_all_keeps_sized(s1, epochs.drop_first(), now);
        }
    }
}

proof fn lemma_with_entry_sized(s: AssemblerView, epoch_number: u64, remote_pts: u64, t: u64)
    requires
        payloads_sized(s),
    ensures
        payloads_sized(spec_with_entry(s, epoch_number, remote_pts, t)),
{
    if pending_at(s.pending, epoch_number) is None {
        let ps = s.pending;
        let slot = crate::epoch::pending_slot(ps, epoch_number);
        lemma_find_first(ps, crate::epoch::at_or_after(epoch_number));
        let qs = spec_with_entry(s, epoch_number, remote_pts, t).pending;
        assert forall|k: int, j: int| 0 <= k < qs.len() && 0 <= j < qs[k].groups.len() implies crate::wire::payload_sized(
            #[trigger] qs[k].groups[j],
        ) by {
            if k < slot {
                assert(qs[k] == ps[k]);
            } else if k > slot {
                assert(qs[k] == ps[k - 1]);
            }
        }
    }
}

/// An insert of a group with a payload of 1 to 16 MiB keeps every pending
/// group's payload within those bounds.
pub proof fn law_insert_keeps_payloads_sized(s: AssemblerView, g: GroupView, t: u64)
    requires
        payloads_sized(s),
        crate::wire::payload_sized(g),
    ensures
        payloads_sized(spec_insert(s, g, t).0),
{
    let h = g.header;
    let e = h.epoch_number;
    if let Ok(s1) = spec_observe(s, t) {
        if !spec_was_released(s1, e) && crate::epoch::group_binding_check(s1.config, g) is Ok {
            let s2 = spec_timeline(s1, e, h.remote_pts).0;
            let s3 = spec_sequence(s2, g.source_id, e, h.group_sequence).0;
            lemma_with_entry_sized(s3, e, h.remote_pts, t);
            lemma_with_entry_found(s3, e, h.remote_pts, t);
            let s4 = spec_with_entry(s3, e, h.remote_pts, t);
            let i = pending_at(s4.pending, e)->0;
            let pe = s4.pending[i];
            let pe2 = PendingView {
                groups: pe.groups.push(g),
                missing_reasons: without_reason(pe.missing_reasons, g.source_id),
                ..pe
            };
            let s5 = AssemblerView { pending: s4.pending.update(i, pe2), ..s4 };
            assert forall|k: int, j: int| 0 <= k < s5.pending.len() && 0 <= j < s5.pending[k].groups.len() implies crate::wire::payload_sized(
                #[trigger] s5.pending[k].groups[j],
            ) by {
                if k == i {
                    if j < pe.groups.len() {
                        assert(s5.pending[k].groups[j] == pe.groups[j]);
                    }
                }
            }
            lemma_release_keeps_sized(s5, e, ReleaseReason::Complete, t);
        }
    }
}

proof fn lemma_record_missing_keeps_sized(
    s: AssemblerView,
    epoch_number: u64,
    remote_pts: u64,
    source_id: Seq<char>,
    reason: MissingReason,
    t: u64,
)
    requires
        payloads_sized(s),
    ensures
        payloads_sized(spec_record_missing(s, epoch_number, remote_pts, source_id, reason, t).0),
{
    if let Ok(s1) = spec_observe(s, t) {
        if !spec_was_released(s1, epoch_number) && source_admitted(s1.config, source_id) {
            let s2 = spec_timeline(s1, epoch_number, remote_pts).0;
            lemma_with_entry_sized(s2, epoch_number, remote_pts, t);
            lemma_with_entry_found(s2, epoch_number, remote_pts, t);
            let s3 = spec_with_entry(s2, epoch_number, remote_pts, t);
            let i = pending_at(s3.pending, epoch_number)->0;
            let pe = s3.pending[i];
            let pe2 = PendingView { missing_reasons: with_reason(pe.missing_reasons, source_id, reason), ..pe };
            let s4 = AssemblerView { pending: s3.pending.update(i, pe2), ..s3 };
            assert forall|k: int, j: int| 0 <= k < s4.pending.len() && 0 <= j < s4.pending[k].groups.len() implies crate::wire::payload_sized(
                #[trigger] s4.pending[k].groups[j],
            ) by {
                assert(s4.pending[k].groups == s3.pending[k].groups);
            }
        }
    }
}

/// What every assembler keeps between calls: bounded windows, ascending and
/// repeat-free pending state, no pending epoch counted as released, pending
/// groups bound to the config and their epoch with payloads of 1 to 16 MiB,
/// and pending epochs on the timeline.
pub open spec fn assembler_well_formed(s: AssemblerView) -> bool {
    &&& crate::assembler_laws::windows_bounded(s)
    &&& assembler_invariant(s)
    &&& timeline_consistent(s)
    &&& pending_unreleased(s)
    &&& groups_bound(s)
    &&& payloads_sized(s)
}

/// A new assembler is well formed.
pub proof fn law_new_assembler_well_formed(p: crate::config::StemConfigParts, max_pending_epochs: nat)
    ensures
        assembler_well_formed(crate::epoch::initial_assembler(p, max_pending_epochs)),
{
    crate::assembler_laws::law_new_assembler_bounded(p, max_pending_epochs);
}

/// Each call keeps an assembler well formed (an inserted group having a
/// payload of 1 to 16 MiB, as every recovered group has).
pub proof fn law_well_formed_step(s: AssemblerView, c: AssemblerCall)
    requires
        assembler_well_formed(s),
        c matches AssemblerCall::Insert { group, .. } ==> crate::wire::payload_sized(group),
    ensures
        assembler_well_formed(call_step(s, c)),
{
    lemma_step_keeps_laws(s, c);
    match c {
        AssemblerCall::Insert { group, host_time } => {
            law_insert_keeps_payloads_sized(s, group, host_time);
        },
        AssemblerCall::RecordMissing { epoch_number, remote_pts, source_id, reason, host_time } => {
            lemma_record_missing_keeps_sized(s, epoch_number, remote_pts, source_id, reason, host_time);
        },
        AssemblerCall::ReleaseDue { host_time } => {
            if let Ok(s1) = spec_observe(s, host_time) {
                lemma_release_all_keeps_sized(s1, crate::epoch::due_epochs(s1.pending, host_time, deadline_nanoseconds(s1)), host_time);
            }
        },
    }
}

/// A present source of a released epoch has a payload of 1 to 16 MiB.
pub proof fn law_release_present_payload_sized(s: AssemblerView, epoch_number: u64, reason: ReleaseReason, at: u64)
    requires
        payloads_sized(s),
    ensures
        spec_release(s, epoch_number, reason, at).1 matches Ok(r) ==> forall|i: int|
            0 <= i < r.groups.len() && (#[trigger] r.groups[i]).status == SourceStatus::Present ==> (r.groups[i].payload matches Some(bytes) && 1 <= bytes.len() <= 16 * 1024 * 1024),
{
    lemma_find_first(s.pending, has_epoch(epoch_number));
    if let Ok(r) = spec_release(s, epoch_number, reason, at).1 {
        let k = pending_at(s.pending, epoch_number)->0;
        let pe = s.pending[k];
        let expected = crate::config::spec_expected_sources(s.config);
        assert forall|i: int| 0 <= i < r.groups.len() && (#[trigger] r.groups[i]).status == SourceStatus::Present implies (r.groups[i].payload matches Some(bytes) && 1 <= bytes.len() <= 16 * 1024 * 1024) by {
            let src = expected[i];
            assert(r.groups[i] == crate::epoch::spec_released_group(src, pe));
            lemma_find_first(pe.groups, crate::epoch::group_for_source(src.source_id@));
            let j = group_with_source(pe.groups, src.source_id@)->0;
            assert(crate::wire::payload_sized(pe.groups[j]));
        }
    }
}

/// What a released epoch of a config lists: the config's identity,
/// generations, key epoch, clock and frame size, and every expected source
/// once, in source-map order, as required or optional as the map says; a
/// present source has a payload of 1 to 16 MiB, the config's encoding for it
/// and a group sequence, and no missing reason; a missing source has none of
/// those, is missing as required or optional, and carries a reason.
pub open spec fn release_lists_sources(p: crate::config::StemConfigParts, r: ReleasedEpochView) -> bool {
    let expected = crate::config::spec_expected_sources(p);
    &&& r.identity == p.identity
    &&& r.config_generation == p.config_generation
    &&& r.source_map_version == p.source_map.version
    &&& r.key_epoch == p.key_epoch
    &&& r.source_clock_id == p.source_map.source_clock_id@
    &&& r.frame_samples == p.source_map.frame_samples
    &&& r.groups.len() == expected.len()
    &&& forall|i: int| 0 <= i < expected.len() ==> {
        let rg = #[trigger] r.groups[i];
        &&& rg.source_id == expected[i].source_id@
        &&& rg.required == expected[i].required
        &&& rg.channel_count == expected[i].channel_layout.channel_count
        &&& (rg.status == SourceStatus::Present <==> rg.payload is Some)
        &&& (rg.status == SourceStatus::Present <==> rg.encoding is Some)
        &&& (rg.status == SourceStatus::Present <==> rg.group_sequence is Some)
        &&& (rg.status == SourceStatus::Present <==> rg.missing_reason is None)
        &&& (rg.status != SourceStatus::Present ==> rg.status == (if expected[i].required {
            SourceStatus::MissingRequired
        } else {
            SourceStatus::MissingOptional
        }))
        &&& (rg.status == SourceStatus::Present ==> {
            &&& rg.payload matches Some(bytes) && 1 <= bytes.len() <= 16 * 1024 * 1024
            &&& rg.encoding == crate::config::spec_encoding_for_source(p, rg.source_id)
        })
    }
}

proof fn lemma_release_lists(s: AssemblerView, epoch_number: u64, reason: ReleaseReason, at: u64)
    requires
        groups_bound(s),
        payloads_sized(s),
    ensures
        spec_release(s, epoch_number, reason, at).1 matches Ok(r) ==> release_lists_sources(s.config, r),
        groups_bound(spec_release(s, epoch_number, reason, at).0),
        payloads_sized(spec_release(s, epoch_number, reason, at).0),
        spec_release(s, epoch_number, reason, at).0.config == s.config,
{
    lemma_release_keeps_bound(s, epoch_number, reason, at);
    lemma_release_keeps_sized(s, epoch_number, reason, at);
    if let Ok(r) = spec_release(s, epoch_number, reason, at).1 {
        crate::assembler_laws::law_release_lists_expected_sources(s, epoch_number, reason, at);
        law_release_carries_config_and_group_facts(s, epoch_number, reason, at);
        law_release_present_payload_sized(s, epoch_number, reason, at);
        let expected = crate::config::spec_expected_sources(s.config);
        assert forall|i: int| 0 <= i < expected.len() implies (#[trigger] r.groups[i]).status == SourceStatus::Present ==> {
            &&& r.groups[i].payload matches Some(bytes) && 1 <= bytes.len() <= 16 * 1024 * 1024
            &&& r.groups[i].encoding == crate::config::spec_encoding_for_source(s.config, r.groups[i].source_id)
        } by {}
    }
}

proof fn lemma_release_all_lists(s: AssemblerView, epochs: Seq<u64>, now: u64)
    requires
        groups_bound(s),
        payloads_sized(s),
    ensures
        spec_release_all(s, epochs, now).1 matches Ok(list) ==> forall|k: int|
            0 <= k < list.len() ==> release_lists_sources(s.config, #[trigger] list[k]),
    decreases epochs.len(),
{
    if epochs.len() > 0 {
        lemma_release_lists(s, epochs[0], ReleaseReason::AggregationDeadline, now);
        let (s1, r) = spec_release(s, epochs[0], ReleaseReason::AggregationDeadline, now);
        if r is Ok {
            lemma_release_all_lists(s1, epochs.drop_first(), now);
            let (s2, r2) = spec_release_all(s1, epochs.drop_first(), now);
            if r2 is Ok {
                let list = seq![r->Ok_0] + r2->Ok_0;
                assert forall|k: int| 0 <= k < list.len() implies release_lists_sources(s.config, #[trigger] list[k]) by {
                    if k > 0 {
                        assert(list[k] == (r2->Ok_0)[k - 1]);
                    }
                }
            }
        }
    }
}

proof fn lemma_insert_release_lists(s: AssemblerView, g: GroupView, t: u64)
    requires
        groups_bound(s),
        payloads_sized(s),
        crate::wire::payload_sized(g),
    ensures
        spec_insert(s, g, t).1 matches Ok(InsertView::Released(x)) ==> release_lists_sources(s.config, x),
{
    let h = g.header;
    let e = h.epoch_number;
    if let Ok(s1) = spec_observe(s, t) {
        if !spec_was_released(s1, e) && crate::epoch::group_binding_check(s1.config, g) is Ok {
            let s2 = spec_timeline(s1, e, h.remote_pts).0;
            let s3 = spec_sequence(s2, g.source_id, e, h.group_sequence).0;
            lemma_with_entry_bound(s3, e, h.remote_pts, t);
            lemma_with_entry_sized(s3, e, h.remote_pts, t);
            lemma_with_entry_found(s3, e, h.remote_pts, t);
            let s4 = spec_with_entry(s3, e, h.remote_pts, t);
            let i = pending_at(s4.pending, e)->0;
            let pe = s4.pending[i];
            let pe2 = PendingView {
                groups: pe.groups.push(g),
                missing_reasons: without_reason(pe.missing_reasons, g.source_id),
                ..pe
            };
            let s5 = AssemblerView { pending: s4.pending.update(i, pe2), ..s4 };
            assert forall|k: int, j: int| 0 <= k < s5.pending.len() && 0 <= j < s5.pending[k].groups.len() implies {
                &&& crate::epoch::group_binding_check(s5.config, #[trigger] s5.pending[k].groups[j]) is Ok
                &&& s5.pending[k].groups[j].header.epoch_number == s5.pending[k].epoch_number
                &&& crate::wire::payload_sized(s5.pending[k].groups[j])
            } by {
                if k == i {
                    if j < pe.groups.len() {
                        assert(s5.pending[k].groups[j] == pe.groups[j]);
                    }
                }
            }
            lemma_release_lists(s5, e, ReleaseReason::Complete, t);
        }
    }
}

/// Every inserted group has a payload of 1 to 16 MiB, as every recovered
/// group has.
pub open spec fn calls_well_formed(calls: Seq<AssemblerCall>) -> bool {
    forall|k: int|
        0 <= k < calls.len() ==> (#[trigger] calls[k] matches AssemblerCall::Insert { group, .. }
            ==> crate::wire::payload_sized(group))
}

proof fn lemma_run_releases_list(s: AssemblerView, calls: Seq<AssemblerCall>)
    requires
        assembler_well_formed(s),
        calls_well_formed(calls),
    ensures
        forall|k: int|
            0 <= k < run_releases(s, calls).len() ==> release_lists_sources(
                s.config,
                #[trigger] run_releases(s, calls)[k],
            ),
    decreases calls.len(),
{
    if calls.len() > 0 {
        let c = calls[0];
        let tail = calls.drop_first();
        assert(calls[0] == c);
        law_well_formed_step(s, c);
        lemma_step_keeps_laws(s, c);
        let s1 = call_step(s, c);
        assert forall|k: int| 0 <= k < tail.len() implies (#[trigger] tail[k] matches AssemblerCall::Insert { group, .. }
            ==> crate::wire::payload_sized(group)) by {
            assert(tail[k] == calls[k + 1]);
        }
        lemma_run_releases_list(s1, tail);
        let first = call_releases(s, c);
        let rest = run_releases(s1, tail);
        assert forall|k: int| 0 <= k < first.len() implies release_lists_sources(s.config, #[trigger] first[k]) by {
            match c {
                AssemblerCall::Insert { group, host_time } => {
                    lemma_insert_release_lists(s, group, host_time);
                },
                AssemblerCall::RecordMissing { .. } => {},
                AssemblerCall::ReleaseDue { host_time } => {
                    if let Ok(s0) = spec_observe(s, host_time) {
                        lemma_release_all_lists(s0, crate::epoch::due_epochs(s0.pending, host_time, deadline_nanoseconds(s0)), host_time);
                    }
                },
            }
        }
        let rs = run_releases(s, calls);
        assert(rs == first + rest);
        assert forall|k: int| 0 <= k < rs.len() implies release_lists_sources(s.config, #[trigger] rs[k]) by {
            if k < first.len() {
                assert(rs[k] == first[k]);
            } else {
                assert(rs[k] == rest[k - first.len()]);
            }
        }
    }
}

/// Every epoch that a new assembler of a config releases over a sequence of
/// calls, by completion or by deadline, lists that config's expected sources
/// as `release_lists_sources` says, whatever order the groups arrived in.
pub proof fn law_released_epochs_list_expected_sources(
    p: crate::config::StemConfigParts,
    max_pending_epochs: nat,
    calls: Seq<AssemblerCall>,
)
    requires
        calls_well_formed(calls),
    ensures
        forall|k: int|
            0 <= k < run_releases(crate::epoch::initial_assembler(p, max_pending_epochs), calls).len()
                ==> release_lists_sources(
                p,
                #[trigger] run_releases(crate::epoch::initial_assembler(p, max_pending_epochs), calls)[k],
            ),
{
    law_new_assembler_well_formed(p, max_pending_epochs);
    lemma_run_releases_list(crate::epoch::initial_assembler(p, max_pending_epochs), calls);
}

/// On any release, a source without a group whose pending epoch holds no
/// reported reason for it is listed as missing for the aggregation deadline,
/// whether it is required or optional; one with a reported reason carries
/// that reason.
pub proof fn law_unreported_missing_source_is_deadline(s: AssemblerView, epoch_number: u64, reason: ReleaseReason, at: u64)
    ensures
        spec_release(s, epoch_number, reason, at).1 matches Ok(r) ==> forall|i: int|
            0 <= i < r.groups.len() && (#[trigger] r.groups[i]).status != SourceStatus::Present ==> {
                let pe = s.pending[pending_at(s.pending, epoch_number)->0];
                match reason_at(pe.missing_reasons, r.groups[i].source_id) {
                    None => r.groups[i].missing_reason == Some(MissingReason::AggregationDeadline),
                    Some(j) => r.groups[i].missing_reason == Some(pe.missing_reasons[j].1),
                }
            },
{
}

/// Per source, group sequences advance one per epoch from the first group
/// seen: the first check for a source passes and records the group's epoch
/// and sequence as its origin; after that the origin stays, and a check
/// passes exactly when the sequence is the origin's plus the epoch distance.
pub proof fn law_group_sequence_advances_per_epoch(s: AssemblerView, source_id: Seq<char>, epoch_number: u64, group_sequence: u64)
    ensures
        ({
            let (s2, r) = spec_sequence(s, source_id, epoch_number, group_sequence);
            &&& s2.pending == s.pending && s2.released_recent == s.released_recent
            &&& match crate::epoch::origin_at(s.source_sequence_origins, source_id) {
                Some(i) => {
                    &&& s2 == s
                    &&& (r is Ok <==> group_sequence == s.source_sequence_origins[i].2 + (epoch_number
                        - s.source_sequence_origins[i].1))
                },
                None => {
                    &&& r is Ok
                    &&& s2.source_sequence_origins == s.source_sequence_origins.push(
                        (source_id, epoch_number, group_sequence),
                    )
                },
            }
        }),
{
}

/// An insert that does not discard its group as late is for an epoch from
/// the config's effective epoch on. A group discarded as a duplicate is
/// already held in its pending epoch, and the pending epochs stay as they
/// were; a duplicate conflict means the pending epoch holds a different
/// group with the same source ref.
pub proof fn law_insert_duplicates(s: AssemblerView, g: GroupView, t: u64)
    ensures
        ({
            let (s2, r) = spec_insert(s, g, t);
            let e = g.header.epoch_number;
            &&& (r is Ok && r != Ok::<InsertView, StemError>(InsertView::LateDiscarded) ==> e
                >= s.config.effective_epoch)
            &&& (r == Ok::<InsertView, StemError>(InsertView::DuplicateDiscarded) ==> {
                &&& s2.pending == s.pending
                &&& pending_at(s.pending, e) is Some
                &&& s.pending[pending_at(s.pending, e)->0].groups.contains(g)
            })
            &&& (r == Err::<InsertView, StemError>(stem_error(StemErrorCode::DuplicateConflict, "sourceRef")) ==> {
                &&& pending_at(s.pending, e) is Some
                &&& group_with_ref(s.pending[pending_at(s.pending, e)->0].groups, g.header.source_ref) matches Some(j)
                    && s.pending[pending_at(s.pending, e)->0].groups[j] != g
            })
        }),
{
    let h = g.header;
    let e = h.epoch_number;
    if let Ok(s1) = spec_observe(s, t) {
        if !spec_was_released(s1, e) && crate::epoch::group_binding_check(s1.config, g) is Ok {
            let s2 = spec_timeline(s1, e, h.remote_pts).0;
            let s3 = spec_sequence(s2, g.source_id, e, h.group_sequence).0;
            lemma_with_entry_found(s3, e, h.remote_pts, t);
            let s4 = spec_with_entry(s3, e, h.remote_pts, t);
            let i = pending_at(s4.pending, e)->0;
            let pe = s4.pending[i];
            if let Some(j) = group_with_ref(pe.groups, h.source_ref) {
                lemma_find_first(pe.groups, crate::epoch::group_for_ref(h.source_ref));
                if pending_at(s3.pending, e) is None {
                    let slot = crate::epoch::pending_slot(s3.pending, e);
                    lemma_find_first(s3.pending, has_epoch(e));
                    lemma_find_first(s3.pending, crate::epoch::at_or_after(e));
                    assert forall|k: int| 0 <= k < slot implies !has_epoch(e)(#[trigger] s4.pending[k]) by {
                        assert(s4.pending[k] == s3.pending[k]);
                    }
                    crate::common::lemma_find_first_is(s4.pending, has_epoch(e), slot);
                    assert(pe.groups.len() == 0);
                } else {
                    assert(s4 == s3);
                    assert(pe.groups[j] == pe.groups[j]);
                }
            }
        }
    }
}

/// A release is refused for the released window exactly when the epoch is
/// neither the next contiguous one nor already recorded, and 256 released
/// epochs are already held above the contiguous marker.
pub proof fn law_release_window(s: AssemblerView, epoch_number: u64, reason: ReleaseReason, at: u64)
    ensures
        spec_release(s, epoch_number, reason, at).1 == Err::<ReleasedEpochView, StemError>(
            stem_error(StemErrorCode::PendingEpochCapacity, "releasedEpochWindow"),
        ) <==> (epoch_number != s.next_contiguous_release && !s.released_recent.contains(epoch_number)
            && s.released_recent.len() >= 256),
{
}

} // verus!
