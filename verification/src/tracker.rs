//! The sampler: turns a stream of "what has focus now" samples into the
//! operations that keep the interval log.
//!
//! Between samples the sampler remembers which application had focus and when
//! that session began. On each sample it closes the outgoing interval at every
//! local midnight passed since the session began, reopening it at the same
//! instant, brings the open interval up to the sample time, and opens a new
//! interval when focus moved to another application. The empty name stands
//! for "no focus".

use crate::datetime::{
    day_start, days_between_day_starts, lemma_day_start_bounds, lemma_day_start_shift, plus_days,
    DateTimeExtensions, LocalDateTime,
};
use crate::db::{extended, inserted, last_started, IntervalView};
use vstd::prelude::*;

verus! {

/// One write to the session store.
#[derive(Clone, Debug, PartialEq, Eq)]
pub enum StoreOp {
    /// Append the zero-length interval `(window_name, time_from, time_from)`.
    Insert { window_name: String, time_from: u32 },
    /// Move the end of the most recently started interval of `window_name`.
    UpdateLast { window_name: String, time_to: u32 },
}

/// The mathematical content of a [`StoreOp`].
pub enum StoreOpView {
    Insert { entity: Seq<char>, from: int },
    UpdateLast { entity: Seq<char>, to: int },
}

impl View for StoreOp {
    type V = StoreOpView;

    open spec fn view(&self) -> StoreOpView {
        match self {
            StoreOp::Insert { window_name, time_from } => StoreOpView::Insert {
                entity: window_name@,
                from: *time_from as int,
            },
            StoreOp::UpdateLast { window_name, time_to } => StoreOpView::UpdateLast {
                entity: window_name@,
                to: *time_to as int,
            },
        }
    }
}

/// The contents of a list of operations.
pub open spec fn ops_view(ops: Seq<StoreOp>) -> Seq<StoreOpView> {
    ops.map_values(|op: StoreOp| op@)
}

/// The log after one operation.
pub open spec fn applied(log: Seq<IntervalView>, op: StoreOpView) -> Seq<IntervalView> {
    match op {
        StoreOpView::Insert { entity, from } => inserted(log, entity, from),
        StoreOpView::UpdateLast { entity, to } => extended(log, entity, to),
    }
}

/// The log after a list of operations, applied first to last.
pub open spec fn applied_all(log: Seq<IntervalView>, ops: Seq<StoreOpView>) -> Seq<IntervalView>
    decreases ops.len(),
{
    if ops.len() == 0 {
        log
    } else {
        applied(applied_all(log, ops.drop_last()), ops.last())
    }
}

/// Whether the store carries out an operation rather than refusing it.
pub open spec fn op_accepted(log: Seq<IntervalView>, op: StoreOpView) -> bool {
    match op {
        StoreOpView::Insert { entity, from } => entity.len() > 0,
        StoreOpView::UpdateLast { entity, to } => entity.len() > 0 && (last_started(log, entity)
            is Some ==> to >= log[last_started(log, entity)->0].from),
    }
}

/// Whether the store carries out every operation of a list.
pub open spec fn all_accepted(log: Seq<IntervalView>, ops: Seq<StoreOpView>) -> bool
    decreases ops.len(),
{
    if ops.len() == 0 {
        true
    } else {
        all_accepted(log, ops.drop_last()) && op_accepted(
            applied_all(log, ops.drop_last()),
            ops.last(),
        )
    }
}

/// What the sampler remembers between samples.
pub struct TrackerView {
    /// The application that had focus at the last sample; empty for none.
    pub entity: Seq<char>,
    /// When the current session began.
    pub start: LocalDateTime,
}

/// Whether an instant's timestamp fits the 32-bit timestamps of the log.
pub open spec fn storable(instant: LocalDateTime) -> bool {
    instant.valid() && 0 <= instant.timestamp <= u32::MAX
}

/// Whether an instant's timestamp fits the 32-bit timestamps of the log.
pub fn is_storable(instant: LocalDateTime) -> (fits: bool)
    ensures
        fits == storable(instant),
{
    -86_400 < instant.offset && instant.offset < 86_400 && 0 <= instant.timestamp
        && instant.timestamp <= u32::MAX as i64
}

/// The `k`-th local midnight after the start of the session's first day.
pub open spec fn midnight_after(start: LocalDateTime, k: int) -> int {
    day_start(start.timestamp + 86_400 * k, start.offset as int)
}

/// Local midnights passed between the session's start and `now`.
pub open spec fn crossings(start: LocalDateTime, now: LocalDateTime) -> int {
    days_between_day_starts(
        start.timestamp as int,
        start.offset as int,
        now.timestamp as int,
        now.offset as int,
    )
}

/// The operations that split `entity`'s interval at the first `n` midnights
/// after `start`: at each, close the open interval and reopen it.
pub open spec fn split_ops(entity: Seq<char>, start: LocalDateTime, n: int) -> Seq<StoreOpView>
    decreases n,
{
    if n <= 0 {
        Seq::empty()
    } else {
        split_ops(entity, start, n - 1).push(
            StoreOpView::UpdateLast { entity, to: midnight_after(start, n) },
        ).push(StoreOpView::Insert { entity, from: midnight_after(start, n) })
    }
}

/// The operations that bring the outgoing application's interval up to `now`.
pub open spec fn closing_ops(cursor: TrackerView, now: LocalDateTime) -> Seq<StoreOpView> {
    if cursor.entity.len() == 0 {
        Seq::empty()
    } else {
        split_ops(cursor.entity, cursor.start, crossings(cursor.start, now)).push(
            StoreOpView::UpdateLast { entity: cursor.entity, to: now.timestamp as int },
        )
    }
}

/// Whether the sample shows focus moving to another application.
pub open spec fn is_transition(cursor: TrackerView, entity: Seq<char>) -> bool {
    entity.len() > 0 && entity != cursor.entity
}

/// The operations of one sample.
pub open spec fn tick_ops(cursor: TrackerView, entity: Seq<char>, now: LocalDateTime) -> Seq<
    StoreOpView,
> {
    if is_transition(cursor, entity) {
        closing_ops(cursor, now).push(
            StoreOpView::Insert { entity, from: now.timestamp as int },
        )
    } else {
        closing_ops(cursor, now)
    }
}

/// What the sampler remembers after one sample.
pub open spec fn tick_cursor(cursor: TrackerView, entity: Seq<char>, now: LocalDateTime) -> TrackerView {
    TrackerView { entity, start: if is_transition(cursor, entity) { now } else { cursor.start } }
}

/// The sampler's memory: the application in focus and the session's start.
pub struct Tracker {
    display_name: String,
    time_from: LocalDateTime,
}

impl View for Tracker {
    type V = TrackerView;

    closed spec fn view(&self) -> TrackerView {
        TrackerView { entity: self.display_name@, start: self.time_from }
    }
}

impl Tracker {
    /// The sampler's invariant: the session start is a storable instant.
    pub open spec fn wf(&self) -> bool {
        storable(self@.start)
    }

    /// A sampler with nothing in focus.
    pub fn new(now: LocalDateTime) -> (tracker: Tracker)
        requires
            storable(now),
        ensures
            tracker.wf(),
            tracker@ == (TrackerView { entity: Seq::empty(), start: now }),
    {
        Tracker { display_name: String::new(), time_from: now }
    }

    /// The application in focus at the last sample; empty for none.
    pub fn display_name(&self) -> (name: &String)
        ensures
            name@ == self@.entity,
    {
        &self.display_name
    }

    /// When the current session began.
    pub fn time_from(&self) -> (start: LocalDateTime)
        ensures
            start == self@.start,
    {
        self.time_from
    }

    /// Takes one sample: `new_display_name` has focus at `now` (empty for
    /// none). Returns the store operations the sample calls for, in order.
    ///
    /// With nothing in focus before or now, there are none. Otherwise the
    /// outgoing application's interval is closed and reopened at each local
    /// midnight between the start of the session and `now`, then brought up
    /// to `now`; and if focus moved to another application, that one's
    /// interval is opened at `now` and the session restarts there. The
    /// session's start moves only then: a session that has passed a midnight
    /// repeats its splits at each later sample.
    pub fn tick(&mut self, new_display_name: &String, now: LocalDateTime) -> (ops: Vec<StoreOp>)
        requires
            old(self).wf(),
            storable(now),
        ensures
            final(self).wf(),
            final(self)@ == tick_cursor(old(self)@, new_display_name@, now),
            ops_view(ops@) == tick_ops(old(self)@, new_display_name@, now),
    {
        let mut ops: Vec<StoreOp> = Vec::new();
        let stamp = now.timestamp as u32;
        let ghost cursor = self@;
        proof {
            assert(ops_view(ops@) =~= Seq::<StoreOpView>::empty());
        }
        if !self.display_name.as_str().is_empty() {
            let crossed = self.time_from.num_days_between_starts(now);
            let mut i: i64 = 0;
            proof {
                lemma_day_start_bounds(now.timestamp as int, now.offset as int);
                lemma_day_start_bounds(cursor.start.timestamp as int, cursor.start.offset as int);
            }
            while i < crossed
                invariant
                    0 <= i,
                    i <= crossed || i == 0,
                    self@ == cursor,
                    storable(cursor.start),
                    storable(now),
                    crossed == crossings(cursor.start, now),
                    ops_view(ops@) == split_ops(cursor.entity, cursor.start, i as int),
                decreases crossed - i,
            {
                proof {
                    lemma_day_start_bounds(now.timestamp as int, now.offset as int);
                    lemma_day_start_bounds(
                        cursor.start.timestamp as int,
                        cursor.start.offset as int,
                    );
                    lemma_day_start_shift(
                        cursor.start.timestamp as int,
                        cursor.start.offset as int,
                        i + 1,
                    );
                }
                let later = LocalDateTime {
                    timestamp: plus_days(self.time_from.timestamp, self.time_from.offset, i + 1),
                    offset: self.time_from.offset,
                };
                let new_day = later.start_of_day().unwrap().timestamp as u32;
                let ghost before = ops_view(ops@);
                ops.push(StoreOp::UpdateLast { window_name: self.display_name.clone(), time_to: new_day });
                ops.push(StoreOp::Insert { window_name: self.display_name.clone(), time_from: new_day });
                i += 1;
                proof {
                    assert(ops_view(ops@) =~= before.push(
                        StoreOpView::UpdateLast { entity: cursor.entity, to: new_day as int },
                    ).push(StoreOpView::Insert { entity: cursor.entity, from: new_day as int }));
                }
            }
            let ghost before = ops_view(ops@);
            ops.push(StoreOp::UpdateLast { window_name: self.display_name.clone(), time_to: stamp });
            proof {
                assert(ops_view(ops@) =~= before.push(
                    StoreOpView::UpdateLast { entity: cursor.entity, to: stamp as int },
                ));
            }
        }
        if !new_display_name.as_str().is_empty() && self.display_name != *new_display_name {
            let ghost before = ops_view(ops@);
            ops.push(StoreOp::Insert { window_name: new_display_name.clone(), time_from: stamp });
            proof {
                assert(ops_view(ops@) =~= before.push(
                    StoreOpView::Insert { entity: new_display_name@, from: stamp as int },
                ));
            }
            self.time_from = now;
        }
        self.display_name = new_display_name.clone();
        ops
    }
}

} // verus!
