//! What the sampler guarantees of the log it keeps: intervals never overlap,
//! the open interval only grows, a change of focus closes one interval where
//! the next begins, and no interval reaches past the midnight after its start.

use crate::datetime::{
    day_start, lemma_day_start_bounds, lemma_day_start_monotone, lemma_day_start_shift,
    lemma_day_starts_apart, lemma_whole_days_bound, lemma_within_day, LocalDateTime,
};
use crate::db::{extended, inserted, last_started, lemma_last_started, well_formed, IntervalView};
use crate::report::total_seconds;
use crate::tracker::{
    all_accepted, applied, applied_all, closing_ops, crossings, is_transition, midnight_after,
    op_accepted, split_ops, storable, tick_cursor, tick_ops, StoreOpView, TrackerView,
};
use vstd::prelude::*;

verus! {

/// Whether two intervals share any time. An interval covers the instants from
/// its start up to, not including, its end; one of no length shares none.
pub open spec fn overlap(a: IntervalView, b: IntervalView) -> bool {
    a.from < b.to && b.from < a.to && a.from < a.to && b.from < b.to
}

/// No two intervals of the log share any time.
pub open spec fn non_overlapping(log: Seq<IntervalView>) -> bool {
    forall|i: int, j: int|
        0 <= i < log.len() && 0 <= j < log.len() && i != j ==> !overlap(
            #[trigger] log[i],
            #[trigger] log[j],
        )
}

/// No interval ends after `horizon`.
pub open spec fn ends_by(log: Seq<IntervalView>, horizon: int) -> bool {
    forall|i: int| 0 <= i < log.len() ==> (#[trigger] log[i]).to <= horizon
}

/// Position of the open interval of `entity`.
pub open spec fn open_index(log: Seq<IntervalView>, entity: Seq<char>) -> int {
    last_started(log, entity)->0
}

/// `entity` has an open interval, and every other interval has ended by the
/// time the open one starts.
pub open spec fn open_at(log: Seq<IntervalView>, entity: Seq<char>) -> bool {
    &&& last_started(log, entity) is Some
    &&& forall|i: int|
        0 <= i < log.len() && i != open_index(log, entity) ==> (#[trigger] log[i]).to
            <= log[open_index(log, entity)].from
}

/// No interval reaches past the local midnight that follows its start.
pub open spec fn day_aligned(log: Seq<IntervalView>, offset: int) -> bool {
    forall|i: int|
        0 <= i < log.len() ==> (#[trigger] log[i]).to <= day_start(log[i].from, offset) + 86_400
}

/// The state of a log while the sampler writes to it on behalf of `entity`,
/// whose session began at `since`, with the clock at `horizon`.
pub open spec fn writing(
    log: Seq<IntervalView>,
    entity: Seq<char>,
    since: int,
    horizon: int,
) -> bool {
    &&& well_formed(log)
    &&& ends_by(log, horizon)
    &&& horizon <= u32::MAX
    &&& non_overlapping(log)
    &&& entity.len() > 0
    &&& open_at(log, entity)
    &&& log[open_index(log, entity)].from >= since
}

/// The state of a log and its sampler between samples, the last of which was
/// taken at `horizon`.
pub open spec fn tracking(log: Seq<IntervalView>, cursor: TrackerView, horizon: int) -> bool {
    &&& well_formed(log)
    &&& ends_by(log, horizon)
    &&& horizon <= u32::MAX
    &&& non_overlapping(log)
    &&& storable(cursor.start)
    &&& cursor.start.timestamp <= horizon
    &&& cursor.entity.len() > 0 ==> {
        &&& open_at(log, cursor.entity)
        &&& log[open_index(log, cursor.entity)].from >= cursor.start.timestamp
    }
}

/// Changing only the end of an interval leaves every open interval in place.
proof fn lemma_last_started_update(
    log: Seq<IntervalView>,
    k: int,
    to: int,
    entity: Seq<char>,
)
    requires
        0 <= k < log.len(),
    ensures
        last_started(
            log.update(k, IntervalView { entity: log[k].entity, from: log[k].from, to }),
            entity,
        ) == last_started(log, entity),
    decreases log.len(),
{
    let row = IntervalView { entity: log[k].entity, from: log[k].from, to };
    let changed = log.update(k, row);
    lemma_last_started(log.drop_last(), entity);
    if k == log.len() - 1 {
        assert(changed.drop_last() =~= log.drop_last());
    } else {
        lemma_last_started_update(log.drop_last(), k, to, entity);
        assert(changed.drop_last() =~= log.drop_last().update(k, row));
    }
}

/// Moving the end of the open interval keeps the log in its writing state
/// as long as the new end is not after the clock.
proof fn lemma_extend_keeps(
    log: Seq<IntervalView>,
    entity: Seq<char>,
    since: int,
    horizon: int,
    to: int,
)
    requires
        writing(log, entity, since, horizon),
        to <= horizon,
    ensures
        writing(extended(log, entity, to), entity, since, horizon),
        open_index(extended(log, entity, to), entity) == open_index(log, entity),
        extended(log, entity, to).len() == log.len(),
        forall|i: int|
            0 <= i < log.len() && i != open_index(log, entity) ==> extended(log, entity, to)[i]
                == log[i],
        extended(log, entity, to)[open_index(log, entity)].from == log[open_index(
            log,
            entity,
        )].from,
        to >= log[open_index(log, entity)].from ==> extended(log, entity, to)[open_index(
            log,
            entity,
        )].to == to,
        to < log[open_index(log, entity)].from ==> extended(log, entity, to) == log,
{
    let o = open_index(log, entity);
    lemma_last_started(log, entity);
    if to >= log[o].from {
        lemma_last_started_update(log, o, to, entity);
        let after = extended(log, entity, to);
        assert forall|i: int, j: int|
            0 <= i < after.len() && 0 <= j < after.len() && i != j implies !overlap(
            #[trigger] after[i],
            #[trigger] after[j],
        ) by {
            if i != o {
                assert(after[i] == log[i]);
            }
            if j != o {
                assert(after[j] == log[j]);
            }
        }
        assert forall|i: int| 0 <= i < after.len() && i != o implies (#[trigger] after[i]).to
            <= after[o].from by {
            assert(after[i] == log[i]);
        }
    }
}

/// Opening a fresh interval of the same application keeps the log in its
/// writing state when the open interval has ended by then, or starts later.
proof fn lemma_reopen_keeps(
    log: Seq<IntervalView>,
    entity: Seq<char>,
    since: int,
    horizon: int,
    at: int,
)
    requires
        writing(log, entity, since, horizon),
        0 <= at <= horizon,
        at >= log[open_index(log, entity)].from ==> log[open_index(log, entity)].to <= at,
    ensures
        writing(inserted(log, entity, at), entity, since, horizon),
        inserted(log, entity, at) == log.push(IntervalView { entity, from: at, to: at }),
        at >= log[open_index(log, entity)].from ==> open_index(inserted(log, entity, at), entity)
            == log.len(),
        at < log[open_index(log, entity)].from ==> open_index(inserted(log, entity, at), entity)
            == open_index(log, entity),
{
    let o = open_index(log, entity);
    let row = IntervalView { entity, from: at, to: at };
    let after = log.push(row);
    lemma_last_started(log, entity);
    assert(after.drop_last() =~= log);
    assert forall|i: int, j: int|
        0 <= i < after.len() && 0 <= j < after.len() && i != j implies !overlap(
        #[trigger] after[i],
        #[trigger] after[j],
    ) by {
        if i < log.len() {
            assert(after[i] == log[i]);
        }
        if j < log.len() {
            assert(after[j] == log[j]);
        }
    }
    let o2 = open_index(after, entity);
    assert forall|i: int| 0 <= i < after.len() && i != o2 implies (#[trigger] after[i]).to
        <= after[o2].from by {
        if i < log.len() {
            assert(after[i] == log[i]);
        }
    }
}

/// Applying a list of operations and then one more.
proof fn lemma_applied_one_more(log: Seq<IntervalView>, ops: Seq<StoreOpView>, last: StoreOpView)
    ensures
        applied_all(log, ops.push(last)) == applied(applied_all(log, ops), last),
{
    assert(ops.push(last).drop_last() =~= ops);
}

/// Applying a list of operations and then two more.
proof fn lemma_applied_two_more(
    log: Seq<IntervalView>,
    ops: Seq<StoreOpView>,
    first: StoreOpView,
    second: StoreOpView,
)
    ensures
        applied_all(log, ops.push(first).push(second)) == applied(
            applied(applied_all(log, ops), first),
            second,
        ),
{
    lemma_applied_one_more(log, ops, first);
    lemma_applied_one_more(log, ops.push(first), second);
}

/// Splitting the open interval at the first `n` midnights after the start of
/// the session keeps the log in its writing state and leaves the open interval
/// starting no earlier than the last of those midnights. A log whose
/// intervals stop at the midnight after their start stays so.
proof fn lemma_split_keeps(
    log: Seq<IntervalView>,
    entity: Seq<char>,
    start: LocalDateTime,
    horizon: int,
    n: int,
    aligned: bool,
)
    requires
        writing(log, entity, start.timestamp as int, horizon),
        storable(start),
        n >= 1 ==> midnight_after(start, n) <= horizon,
        aligned ==> day_aligned(log, start.offset as int),
    ensures
        writing(
            applied_all(log, split_ops(entity, start, n)),
            entity,
            start.timestamp as int,
            horizon,
        ),
        n >= 0 ==> applied_all(log, split_ops(entity, start, n))[open_index(
            applied_all(log, split_ops(entity, start, n)),
            entity,
        )].from >= midnight_after(start, n),
        n < 0 ==> applied_all(log, split_ops(entity, start, n)) == log,
        aligned ==> day_aligned(applied_all(log, split_ops(entity, start, n)), start.offset as int),
    decreases n,
{
    let off = start.offset as int;
    lemma_day_start_bounds(start.timestamp as int, off);
    if n >= 1 {
        let at = midnight_after(start, n);
        let earlier = midnight_after(start, n - 1);
        lemma_day_start_shift(start.timestamp as int, off, n);
        lemma_day_start_shift(start.timestamp as int, off, n - 1);
        lemma_split_keeps(log, entity, start, horizon, n - 1, aligned);
        let ops = split_ops(entity, start, n - 1);
        let l1 = applied_all(log, ops);
        let l2 = extended(l1, entity, at);
        let l3 = inserted(l2, entity, at);
        lemma_applied_two_more(
            log,
            ops,
            StoreOpView::UpdateLast { entity, to: at },
            StoreOpView::Insert { entity, from: at },
        );
        assert(applied_all(log, split_ops(entity, start, n)) == l3);
        let o = open_index(l1, entity);
        lemma_last_started(l1, entity);
        lemma_extend_keeps(l1, entity, start.timestamp as int, horizon, at);
        lemma_reopen_keeps(l2, entity, start.timestamp as int, horizon, at);
        lemma_day_start_bounds(at, off);
        lemma_day_start_bounds(earlier, off);
        if aligned {
            lemma_day_start_monotone(earlier, l1[o].from, off);
            assert forall|i: int| 0 <= i < l3.len() implies (#[trigger] l3[i]).to <= day_start(
                l3[i].from,
                off,
            ) + 86_400 by {
                if i < l2.len() {
                    assert(l3[i] == l2[i]);
                    if i != o {
                        assert(l2[i] == l1[i]);
                    }
                }
            }
        }
    } else if n == 0 {
        lemma_last_started(log, entity);
    }
}

/// Bringing the outgoing application's interval up to the sample keeps the
/// log in its writing state and ends the open interval at the sample.
proof fn lemma_closing_keeps(
    log: Seq<IntervalView>,
    cursor: TrackerView,
    horizon: int,
    now: LocalDateTime,
    aligned: bool,
)
    requires
        tracking(log, cursor, horizon),
        cursor.entity.len() > 0,
        storable(now),
        horizon <= now.timestamp,
        aligned ==> day_aligned(log, now.offset as int) && cursor.start.offset == now.offset,
    ensures
        writing(
            applied_all(log, closing_ops(cursor, now)),
            cursor.entity,
            cursor.start.timestamp as int,
            now.timestamp as int,
        ),
        applied_all(log, closing_ops(cursor, now))[open_index(
            applied_all(log, closing_ops(cursor, now)),
            cursor.entity,
        )].to == now.timestamp,
        aligned ==> day_aligned(applied_all(log, closing_ops(cursor, now)), now.offset as int),
{
    let entity = cursor.entity;
    let start = cursor.start;
    let off = start.offset as int;
    let n = crossings(start, now);
    let clock = now.timestamp as int;
    lemma_day_start_bounds(start.timestamp as int, off);
    lemma_day_start_bounds(clock, now.offset as int);
    lemma_whole_days_bound(day_start(clock, now.offset as int) - day_start(start.timestamp as int, off));
    if n >= 1 {
        lemma_day_start_shift(start.timestamp as int, off, n);
    }
    lemma_split_keeps(log, entity, start, clock, n, aligned);
    let ops = split_ops(entity, start, n);
    let l1 = applied_all(log, ops);
    lemma_applied_one_more(log, ops, StoreOpView::UpdateLast { entity, to: clock });
    let l2 = extended(l1, entity, clock);
    let o = open_index(l1, entity);
    lemma_last_started(l1, entity);
    lemma_extend_keeps(l1, entity, start.timestamp as int, clock, clock);
    if aligned {
        lemma_day_starts_apart(start.timestamp as int, clock, off);
        lemma_day_start_shift(start.timestamp as int, off, n);
        lemma_day_start_monotone(day_start(clock, off), l1[o].from, off);
        assert forall|i: int| 0 <= i < l2.len() implies (#[trigger] l2[i]).to <= day_start(
            l2[i].from,
            off,
        ) + 86_400 by {
            if i != o {
                assert(l2[i] == l1[i]);
            }
        }
    }
}

/// Opening an interval at the clock, once every interval has ended by then,
/// puts the log in its writing state for the incoming application.
proof fn lemma_open_new(log: Seq<IntervalView>, entity: Seq<char>, clock: int)
    requires
        well_formed(log),
        ends_by(log, clock),
        0 <= clock <= u32::MAX,
        non_overlapping(log),
        entity.len() > 0,
    ensures
        writing(inserted(log, entity, clock), entity, clock, clock),
        open_index(inserted(log, entity, clock), entity) == log.len(),
        inserted(log, entity, clock) == log.push(IntervalView { entity, from: clock, to: clock }),
{
    let after = log.push(IntervalView { entity, from: clock, to: clock });
    lemma_last_started(log, entity);
    assert(after.drop_last() =~= log);
    assert forall|i: int, j: int|
        0 <= i < after.len() && 0 <= j < after.len() && i != j implies !overlap(
        #[trigger] after[i],
        #[trigger] after[j],
    ) by {
        if i < log.len() {
            assert(after[i] == log[i]);
        }
        if j < log.len() {
            assert(after[j] == log[j]);
        }
    }
    assert forall|i: int| 0 <= i < after.len() implies {
        &&& (#[trigger] after[i]).entity.len() > 0
        &&& 0 <= after[i].from <= after[i].to <= u32::MAX
        &&& after[i].to <= clock
    } by {
        if i < log.len() {
            assert(after[i] == log[i]);
        }
    }
}

/// The log after the operations of one sample, and what holds of it.
proof fn lemma_tick(
    log: Seq<IntervalView>,
    cursor: TrackerView,
    horizon: int,
    entity: Seq<char>,
    now: LocalDateTime,
    aligned: bool,
)
    requires
        tracking(log, cursor, horizon),
        storable(now),
        horizon <= now.timestamp,
        aligned ==> day_aligned(log, now.offset as int),
        aligned && cursor.entity.len() > 0 ==> cursor.start.offset == now.offset,
    ensures
        tracking(
            applied_all(log, tick_ops(cursor, entity, now)),
            tick_cursor(cursor, entity, now),
            now.timestamp as int,
        ),
        aligned ==> day_aligned(applied_all(log, tick_ops(cursor, entity, now)), now.offset as int),
        cursor.entity.len() > 0 ==> {
            let closed = applied_all(log, closing_ops(cursor, now));
            &&& writing(closed, cursor.entity, cursor.start.timestamp as int, now.timestamp as int)
            &&& closed[open_index(closed, cursor.entity)].to == now.timestamp
        },
        is_transition(cursor, entity) ==> applied_all(log, tick_ops(cursor, entity, now))
            == applied_all(log, closing_ops(cursor, now)).push(
            IntervalView { entity, from: now.timestamp as int, to: now.timestamp as int },
        ),
        !is_transition(cursor, entity) ==> applied_all(log, tick_ops(cursor, entity, now))
            == applied_all(log, closing_ops(cursor, now)),
{
    let clock = now.timestamp as int;
    let closing = closing_ops(cursor, now);
    let closed = applied_all(log, closing);
    lemma_day_start_bounds(clock, now.offset as int);
    if cursor.entity.len() > 0 {
        lemma_closing_keeps(log, cursor, horizon, now, aligned);
    } else {
        assert(closed == log);
    }
    if is_transition(cursor, entity) {
        lemma_applied_one_more(log, closing, StoreOpView::Insert { entity, from: clock });
        lemma_open_new(closed, entity, clock);
        let after = inserted(closed, entity, clock);
        if aligned {
            assert forall|i: int| 0 <= i < after.len() implies (#[trigger] after[i]).to
                <= day_start(after[i].from, now.offset as int) + 86_400 by {
                if i < closed.len() {
                    assert(after[i] == closed[i]);
                }
            }
        }
    }
}

/// A sampler that has seen nothing, and an empty log, are in step.
pub proof fn fresh_tracker_tracks(now: LocalDateTime)
    requires
        storable(now),
    ensures
        tracking(
            Seq::empty(),
            TrackerView { entity: Seq::empty(), start: now },
            now.timestamp as int,
        ),
        day_aligned(Seq::empty(), now.offset as int),
{
}

/// While the clock does not run backwards, a sample leaves the log and the
/// sampler in step: every interval well formed and ended by the sample, no
/// two intervals sharing any time, and the application in focus holding the
/// open interval, which every other interval precedes.
pub proof fn tick_keeps_timeline(
    log: Seq<IntervalView>,
    cursor: TrackerView,
    horizon: int,
    entity: Seq<char>,
    now: LocalDateTime,
)
    requires
        tracking(log, cursor, horizon),
        storable(now),
        horizon <= now.timestamp,
    ensures
        tracking(
            applied_all(log, tick_ops(cursor, entity, now)),
            tick_cursor(cursor, entity, now),
            now.timestamp as int,
        ),
        non_overlapping(applied_all(log, tick_ops(cursor, entity, now))),
{
    lemma_tick(log, cursor, horizon, entity, now, false);
}

/// While the clock does not run backwards and local time keeps one offset
/// from UTC through every session, a sample leaves every interval within one
/// local day: none reaches past the midnight that follows its start.
pub proof fn tick_keeps_days(
    log: Seq<IntervalView>,
    cursor: TrackerView,
    horizon: int,
    entity: Seq<char>,
    now: LocalDateTime,
)
    requires
        tracking(log, cursor, horizon),
        day_aligned(log, now.offset as int),
        cursor.entity.len() > 0 ==> cursor.start.offset == now.offset,
        storable(now),
        horizon <= now.timestamp,
    ensures
        day_aligned(applied_all(log, tick_ops(cursor, entity, now)), now.offset as int),
        entity.len() > 0 ==> tick_cursor(cursor, entity, now).start.offset == now.offset,
{
    lemma_tick(log, cursor, horizon, entity, now, true);
}

/// An interval that stops at or before the midnight after its start begins
/// and ends on the same local day, unless it ends exactly at that midnight,
/// which begins the next day.
pub proof fn day_containment(row: IntervalView, offset: int)
    requires
        row.from <= row.to <= day_start(row.from, offset) + 86_400,
    ensures
        row.to != day_start(row.from, offset) + 86_400 ==> day_start(row.to, offset) == day_start(
            row.from,
            offset,
        ),
        row.to == day_start(row.from, offset) + 86_400 ==> day_start(row.to, offset) == row.to,
{
    let midnight = day_start(row.from, offset);
    lemma_day_start_bounds(row.from, offset);
    if row.to < midnight + 86_400 {
        lemma_within_day(midnight, row.to, offset);
    } else {
        lemma_day_start_shift(midnight, offset, 1);
    }
}

/// While the same application stays in focus and the clock does not run
/// backwards, its open interval ends at the sample, no earlier than before.
pub proof fn open_interval_only_grows(
    log: Seq<IntervalView>,
    cursor: TrackerView,
    horizon: int,
    now: LocalDateTime,
)
    requires
        tracking(log, cursor, horizon),
        cursor.entity.len() > 0,
        storable(now),
        horizon <= now.timestamp,
    ensures
        ({
            let after = applied_all(log, tick_ops(cursor, cursor.entity, now));
            &&& last_started(after, cursor.entity) is Some
            &&& after[open_index(after, cursor.entity)].to == now.timestamp
            &&& after[open_index(after, cursor.entity)].to >= log[open_index(
                log,
                cursor.entity,
            )].to
        }),
{
    lemma_tick(log, cursor, horizon, cursor.entity, now, false);
    lemma_last_started(log, cursor.entity);
}

/// When focus moves from one application to another, the first one's last
/// interval ends at the sample, and the log gains, as its last entry, the
/// second one's interval of no length starting there; that interval is the
/// second application's open interval.
pub proof fn transition_closes_prior_interval(
    log: Seq<IntervalView>,
    cursor: TrackerView,
    horizon: int,
    entity: Seq<char>,
    now: LocalDateTime,
)
    requires
        tracking(log, cursor, horizon),
        cursor.entity.len() > 0,
        entity.len() > 0,
        entity != cursor.entity,
        storable(now),
        horizon <= now.timestamp,
    ensures
        ({
            let after = applied_all(log, tick_ops(cursor, entity, now));
            &&& last_started(after, cursor.entity) is Some
            &&& after[open_index(after, cursor.entity)].to == now.timestamp
            &&& after.len() > 0
            &&& after.last() == (IntervalView {
                entity,
                from: now.timestamp as int,
                to: now.timestamp as int,
            })
            &&& last_started(after, entity) == Some(after.len() - 1)
        }),
{
    lemma_tick(log, cursor, horizon, entity, now, false);
    let closed = applied_all(log, closing_ops(cursor, now));
    let after = applied_all(log, tick_ops(cursor, entity, now));
    lemma_open_new(closed, entity, now.timestamp as int);
    assert(after.drop_last() =~= closed);
    lemma_last_started(closed, cursor.entity);
}

/// Changing the end of an interval changes its application's total by as
/// much, and no other total.
proof fn lemma_total_update(log: Seq<IntervalView>, k: int, to: int, entity: Seq<char>)
    requires
        0 <= k < log.len(),
    ensures
        total_seconds(
            log.update(k, IntervalView { entity: log[k].entity, from: log[k].from, to }),
            entity,
            None,
        ) == total_seconds(log, entity, None) + if log[k].entity == entity {
            to - log[k].to
        } else {
            0
        },
    decreases log.len(),
{
    let row = IntervalView { entity: log[k].entity, from: log[k].from, to };
    let changed = log.update(k, row);
    if k == log.len() - 1 {
        assert(changed.drop_last() =~= log.drop_last());
    } else {
        lemma_total_update(log.drop_last(), k, to, entity);
        assert(changed.drop_last() =~= log.drop_last().update(k, row));
    }
}

/// The seconds of an application in focus, less the end of its open
/// interval: what the sampler's writes on its behalf leave unchanged.
pub open spec fn settled_seconds(log: Seq<IntervalView>, entity: Seq<char>) -> int {
    total_seconds(log, entity, None) - log[open_index(log, entity)].to
}

/// Moving the end of the open interval moves its application's total with
/// it, and no other total.
proof fn lemma_extend_total(log: Seq<IntervalView>, entity: Seq<char>, to: int, any: Seq<char>)
    requires
        last_started(log, entity) is Some,
    ensures
        settled_seconds(extended(log, entity, to), entity) == settled_seconds(log, entity),
        any != entity ==> total_seconds(extended(log, entity, to), any, None) == total_seconds(
            log,
            any,
            None,
        ),
{
    let o = open_index(log, entity);
    lemma_last_started(log, entity);
    if entity.len() > 0 && to >= log[o].from {
        lemma_last_started_update(log, o, to, entity);
        lemma_total_update(log, o, to, entity);
        lemma_total_update(log, o, to, any);
    }
}

/// An interval of no length changes no total.
proof fn lemma_insert_total(log: Seq<IntervalView>, entity: Seq<char>, at: int, any: Seq<char>)
    ensures
        total_seconds(inserted(log, entity, at), any, None) == total_seconds(log, any, None),
{
    if entity.len() > 0 {
        assert(log.push(IntervalView { entity, from: at, to: at }).drop_last() =~= log);
    }
}

/// Splitting the open interval changes no total but that of its application,
/// which moves with the end of the open interval.
proof fn lemma_split_total(
    log: Seq<IntervalView>,
    entity: Seq<char>,
    start: LocalDateTime,
    horizon: int,
    n: int,
    any: Seq<char>,
)
    requires
        writing(log, entity, start.timestamp as int, horizon),
        storable(start),
        n >= 1 ==> midnight_after(start, n) <= horizon,
    ensures
        settled_seconds(applied_all(log, split_ops(entity, start, n)), entity) == settled_seconds(
            log,
            entity,
        ),
        any != entity ==> total_seconds(applied_all(log, split_ops(entity, start, n)), any, None)
            == total_seconds(log, any, None),
    decreases n,
{
    let off = start.offset as int;
    lemma_day_start_bounds(start.timestamp as int, off);
    if n >= 1 {
        let at = midnight_after(start, n);
        lemma_day_start_shift(start.timestamp as int, off, n);
        lemma_day_start_shift(start.timestamp as int, off, n - 1);
        lemma_split_keeps(log, entity, start, horizon, n - 1, false);
        lemma_split_total(log, entity, start, horizon, n - 1, any);
        let ops = split_ops(entity, start, n - 1);
        let l1 = applied_all(log, ops);
        let l2 = extended(l1, entity, at);
        let l3 = inserted(l2, entity, at);
        lemma_applied_two_more(
            log,
            ops,
            StoreOpView::UpdateLast { entity, to: at },
            StoreOpView::Insert { entity, from: at },
        );
        lemma_extend_keeps(l1, entity, start.timestamp as int, horizon, at);
        lemma_extend_total(l1, entity, at, any);
        lemma_reopen_keeps(l2, entity, start.timestamp as int, horizon, at);
        lemma_insert_total(l2, entity, at, any);
        lemma_insert_total(l2, entity, at, entity);
        let o = open_index(l1, entity);
        lemma_last_started(l1, entity);
        assert(open_index(l2, entity) == o);
        if at >= l2[o].from {
            assert(l2[o].to == at);
            assert(l3[open_index(l3, entity)].to == at);
        } else {
            assert(l3[o] == l2[o]);
        }
        assert(applied_all(log, split_ops(entity, start, n)) == l3);
    }
}

/// A sample adds to the total of the application that was in focus exactly
/// the time since its open interval last ended, and nothing to any other
/// total: while the clock does not run backwards, no second in focus is lost
/// or counted twice.
pub proof fn tick_accounts_for_time(
    log: Seq<IntervalView>,
    cursor: TrackerView,
    horizon: int,
    entity: Seq<char>,
    now: LocalDateTime,
    any: Seq<char>,
)
    requires
        tracking(log, cursor, horizon),
        storable(now),
        horizon <= now.timestamp,
    ensures
        total_seconds(applied_all(log, tick_ops(cursor, entity, now)), any, None) == total_seconds(
            log,
            any,
            None,
        ) + if cursor.entity.len() > 0 && any == cursor.entity {
            now.timestamp - log[open_index(log, cursor.entity)].to
        } else {
            0
        },
{
    let clock = now.timestamp as int;
    let closing = closing_ops(cursor, now);
    let closed = applied_all(log, closing);
    lemma_tick(log, cursor, horizon, entity, now, false);
    if cursor.entity.len() > 0 {
        let start = cursor.start;
        let n = crossings(start, now);
        lemma_day_start_bounds(start.timestamp as int, start.offset as int);
        lemma_day_start_bounds(clock, now.offset as int);
        lemma_whole_days_bound(
            day_start(clock, now.offset as int) - day_start(
                start.timestamp as int,
                start.offset as int,
            ),
        );
        if n >= 1 {
            lemma_day_start_shift(start.timestamp as int, start.offset as int, n);
        }
        lemma_split_keeps(log, cursor.entity, start, clock, n, false);
        lemma_split_total(log, cursor.entity, start, clock, n, any);
        let ops = split_ops(cursor.entity, start, n);
        let l1 = applied_all(log, ops);
        lemma_applied_one_more(
            log,
            ops,
            StoreOpView::UpdateLast { entity: cursor.entity, to: clock },
        );
        lemma_extend_total(l1, cursor.entity, clock, any);
    }
    if is_transition(cursor, entity) {
        lemma_insert_total(closed, entity, clock, any);
    }
}

/// Whether a list of operations and one more are all carried out.
proof fn lemma_accepted_one_more(log: Seq<IntervalView>, ops: Seq<StoreOpView>, last: StoreOpView)
    ensures
        all_accepted(log, ops.push(last)) == (all_accepted(log, ops) && op_accepted(
            applied_all(log, ops),
            last,
        )),
{
    assert(ops.push(last).drop_last() =~= ops);
}

/// The store refuses no split of an open interval that began before the
/// first of the midnights, and the last split leaves the open interval
/// starting at the last of them.
proof fn lemma_split_clean(
    log: Seq<IntervalView>,
    entity: Seq<char>,
    start: LocalDateTime,
    horizon: int,
    n: int,
)
    requires
        writing(log, entity, start.timestamp as int, horizon),
        storable(start),
        n >= 1 ==> midnight_after(start, n) <= horizon,
        n >= 1 ==> log[open_index(log, entity)].from <= midnight_after(start, 1),
    ensures
        all_accepted(log, split_ops(entity, start, n)),
        n >= 1 ==> applied_all(log, split_ops(entity, start, n))[open_index(
            applied_all(log, split_ops(entity, start, n)),
            entity,
        )].from == midnight_after(start, n),
    decreases n,
{
    let off = start.offset as int;
    lemma_day_start_bounds(start.timestamp as int, off);
    if n >= 1 {
        let at = midnight_after(start, n);
        lemma_day_start_shift(start.timestamp as int, off, n);
        lemma_day_start_shift(start.timestamp as int, off, n - 1);
        lemma_day_start_shift(start.timestamp as int, off, 1);
        lemma_split_keeps(log, entity, start, horizon, n - 1, false);
        lemma_split_clean(log, entity, start, horizon, n - 1);
        let ops = split_ops(entity, start, n - 1);
        let l1 = applied_all(log, ops);
        let l2 = extended(l1, entity, at);
        let first = StoreOpView::UpdateLast { entity, to: at };
        let second = StoreOpView::Insert { entity, from: at };
        lemma_applied_two_more(log, ops, first, second);
        lemma_applied_one_more(log, ops, first);
        lemma_accepted_one_more(log, ops, first);
        lemma_accepted_one_more(log, ops.push(first), second);
        lemma_last_started(l1, entity);
        lemma_extend_keeps(l1, entity, start.timestamp as int, horizon, at);
        lemma_reopen_keeps(l2, entity, start.timestamp as int, horizon, at);
    }
}

/// The store refuses none of a sample's operations while the clock does not
/// run backwards and the session has not yet been split past the first
/// midnight after its start.
pub proof fn sample_is_clean(
    log: Seq<IntervalView>,
    cursor: TrackerView,
    horizon: int,
    entity: Seq<char>,
    now: LocalDateTime,
)
    requires
        tracking(log, cursor, horizon),
        storable(now),
        horizon <= now.timestamp,
        cursor.entity.len() > 0 && crossings(cursor.start, now) >= 1 ==> log[open_index(
            log,
            cursor.entity,
        )].from <= midnight_after(cursor.start, 1),
    ensures
        all_accepted(log, tick_ops(cursor, entity, now)),
{
    let clock = now.timestamp as int;
    let closing = closing_ops(cursor, now);
    if cursor.entity.len() > 0 {
        let start = cursor.start;
        let n = crossings(start, now);
        lemma_day_start_bounds(start.timestamp as int, start.offset as int);
        lemma_day_start_bounds(clock, now.offset as int);
        lemma_whole_days_bound(
            day_start(clock, now.offset as int) - day_start(
                start.timestamp as int,
                start.offset as int,
            ),
        );
        if n >= 1 {
            lemma_day_start_shift(start.timestamp as int, start.offset as int, n);
        }
        lemma_split_keeps(log, cursor.entity, start, clock, n, false);
        lemma_split_clean(log, cursor.entity, start, clock, n);
        let ops = split_ops(cursor.entity, start, n);
        let l1 = applied_all(log, ops);
        lemma_last_started(l1, cursor.entity);
        lemma_accepted_one_more(
            log,
            ops,
            StoreOpView::UpdateLast { entity: cursor.entity, to: clock },
        );
    }
    if is_transition(cursor, entity) {
        lemma_accepted_one_more(log, closing, StoreOpView::Insert { entity, from: clock });
    }
}

/// Where the `k`-th piece of a split session starts: the first where the
/// open interval started, each later one at the midnight that ended the
/// piece before.
pub open spec fn piece_start(start: LocalDateTime, from: int, k: int) -> int {
    if k <= 0 {
        from
    } else {
        midnight_after(start, k)
    }
}

/// The first `n` pieces of a session split at the midnights after its start:
/// each runs from its start to the next midnight.
pub open spec fn closed_pieces(
    entity: Seq<char>,
    start: LocalDateTime,
    from: int,
    n: int,
) -> Seq<IntervalView>
    decreases n,
{
    if n <= 0 {
        Seq::empty()
    } else {
        closed_pieces(entity, start, from, n - 1).push(
            IntervalView {
                entity,
                from: piece_start(start, from, n - 1),
                to: midnight_after(start, n),
            },
        )
    }
}

/// A session split at `n` midnights and open until `end`: the closed pieces
/// and the piece from the last midnight to `end`.
pub open spec fn pieces(
    entity: Seq<char>,
    start: LocalDateTime,
    from: int,
    n: int,
    end: int,
) -> Seq<IntervalView> {
    closed_pieces(entity, start, from, n).push(
        IntervalView { entity, from: piece_start(start, from, n), to: end },
    )
}

/// Splitting an open interval that is the last of the log and began before
/// the first of the midnights replaces it by its pieces.
proof fn lemma_split_exact(
    log: Seq<IntervalView>,
    entity: Seq<char>,
    start: LocalDateTime,
    horizon: int,
    n: int,
)
    requires
        writing(log, entity, start.timestamp as int, horizon),
        storable(start),
        open_index(log, entity) == log.len() - 1,
        n >= 1 ==> midnight_after(start, n) <= horizon,
        n >= 1 ==> log.last().from <= midnight_after(start, 1),
    ensures
        applied_all(log, split_ops(entity, start, n)) == log.drop_last() + pieces(
            entity,
            start,
            log.last().from,
            n,
            if n >= 1 {
                midnight_after(start, n)
            } else {
                log.last().to
            },
        ),
        open_index(applied_all(log, split_ops(entity, start, n)), entity) == applied_all(
            log,
            split_ops(entity, start, n),
        ).len() - 1,
    decreases n,
{
    let off = start.offset as int;
    let from = log.last().from;
    lemma_last_started(log, entity);
    lemma_day_start_bounds(start.timestamp as int, off);
    if n >= 1 {
        let at = midnight_after(start, n);
        lemma_day_start_shift(start.timestamp as int, off, n);
        lemma_day_start_shift(start.timestamp as int, off, n - 1);
        lemma_day_start_shift(start.timestamp as int, off, 1);
        lemma_split_keeps(log, entity, start, horizon, n - 1, false);
        lemma_split_exact(log, entity, start, horizon, n - 1);
        let ops = split_ops(entity, start, n - 1);
        let l1 = applied_all(log, ops);
        let l2 = extended(l1, entity, at);
        let l3 = inserted(l2, entity, at);
        lemma_applied_two_more(
            log,
            ops,
            StoreOpView::UpdateLast { entity, to: at },
            StoreOpView::Insert { entity, from: at },
        );
        lemma_last_started(l1, entity);
        lemma_extend_keeps(l1, entity, start.timestamp as int, horizon, at);
        lemma_reopen_keeps(l2, entity, start.timestamp as int, horizon, at);
        let closed = closed_pieces(entity, start, from, n - 1);
        let earlier = IntervalView { entity, from: piece_start(start, from, n - 1), to: at };
        assert(l1.last().from == piece_start(start, from, n - 1));
        assert(l2 =~= log.drop_last() + closed.push(earlier));
        assert(l3 =~= log.drop_last() + pieces(entity, start, from, n, at));
    } else {
        assert(log =~= log.drop_last() + pieces(entity, start, from, n, log.last().to));
    }
}

/// A session that crosses midnights is cut exactly there. When the open
/// interval is the last of the log and began before the first midnight after
/// the start of the session, a sample with the same application still in
/// focus, or leaving it, replaces that interval by one piece up to each
/// midnight passed and a last piece up to the sample: `n + 1` pieces for `n`
/// midnights, each beginning where the one before ends.
pub proof fn split_is_exact(
    log: Seq<IntervalView>,
    cursor: TrackerView,
    horizon: int,
    now: LocalDateTime,
)
    requires
        tracking(log, cursor, horizon),
        cursor.entity.len() > 0,
        open_index(log, cursor.entity) == log.len() - 1,
        storable(now),
        horizon <= now.timestamp,
        crossings(cursor.start, now) >= 1 ==> log.last().from <= midnight_after(cursor.start, 1),
    ensures
        applied_all(log, closing_ops(cursor, now)) == log.drop_last() + pieces(
            cursor.entity,
            cursor.start,
            log.last().from,
            crossings(cursor.start, now),
            now.timestamp as int,
        ),
        pieces(
            cursor.entity,
            cursor.start,
            log.last().from,
            crossings(cursor.start, now),
            now.timestamp as int,
        ).len() == crossings(cursor.start, now) + 1,
{
    let entity = cursor.entity;
    let start = cursor.start;
    let clock = now.timestamp as int;
    let n = crossings(start, now);
    let from = log.last().from;
    lemma_last_started(log, entity);
    lemma_day_start_bounds(start.timestamp as int, start.offset as int);
    lemma_day_start_bounds(clock, now.offset as int);
    lemma_day_start_monotone(start.timestamp as int, clock, start.offset as int);
    lemma_whole_days_bound(
        day_start(clock, now.offset as int) - day_start(start.timestamp as int, start.offset as int),
    );
    if n >= 1 {
        lemma_day_start_shift(start.timestamp as int, start.offset as int, n);
    }
    lemma_split_keeps(log, entity, start, clock, n, false);
    lemma_split_exact(log, entity, start, clock, n);
    let ops = split_ops(entity, start, n);
    let l1 = applied_all(log, ops);
    lemma_applied_one_more(log, ops, StoreOpView::UpdateLast { entity, to: clock });
    lemma_last_started(l1, entity);
    lemma_extend_keeps(l1, entity, start.timestamp as int, clock, clock);
    let l2 = extended(l1, entity, clock);
    assert(l2 =~= log.drop_last() + pieces(entity, start, from, n, clock));
    lemma_closed_pieces_len(entity, start, from, n);
}

/// There are as many closed pieces as midnights.
proof fn lemma_closed_pieces_len(entity: Seq<char>, start: LocalDateTime, from: int, n: int)
    ensures
        closed_pieces(entity, start, from, n).len() == if n >= 0 {
            n
        } else {
            0
        },
    decreases n,
{
    if n >= 1 {
        lemma_closed_pieces_len(entity, start, from, n - 1);
    }
}

} // verus!
