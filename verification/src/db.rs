//! The session store: an append-only log of focus intervals.
//!
//! Each interval records which application held focus from one timestamp to
//! another. Intervals are appended zero-length and grown in place; the one
//! that grows is the most recently started interval of its application.

pub use crate::report::WindowStat;
use crate::date::Date;
use crate::report::{aggregate, is_report, overflows, stats_view};
use crate::tracker::{
    all_accepted, applied, applied_all, op_accepted, ops_view, StoreOp, StoreOpView,
};
use vstd::prelude::*;

verus! {

/// One stored interval: `window_name` held focus from `time_from` to
/// `time_to`, both in seconds since the Unix epoch.
#[derive(Clone, Debug, PartialEq, Eq)]
pub struct Interval {
    pub window_name: String,
    pub time_from: u32,
    pub time_to: u32,
}

/// The mathematical content of an [`Interval`].
pub struct IntervalView {
    pub entity: Seq<char>,
    pub from: int,
    pub to: int,
}

impl View for Interval {
    type V = IntervalView;

    open spec fn view(&self) -> IntervalView {
        IntervalView {
            entity: self.window_name@,
            from: self.time_from as int,
            to: self.time_to as int,
        }
    }
}

/// Why the store refused an operation.
#[derive(Clone, Copy, Debug, PartialEq, Eq, Structural)]
pub enum StoreError {
    /// The application name was empty; the empty name stands for "no focus"
    /// and is never stored.
    EmptyEntity,
    /// The new end of an interval would precede its start.
    EndBeforeStart,
    /// An application's total time does not fit in 32 bits.
    TotalOverflow,
}

/// Every interval names an application and does not end before it starts.
pub open spec fn well_formed(log: Seq<IntervalView>) -> bool {
    forall|i: int|
        0 <= i < log.len() ==> {
            &&& (#[trigger] log[i]).entity.len() > 0
            &&& 0 <= log[i].from <= log[i].to <= u32::MAX
        }
}

/// Position of the most recently started interval of `entity`: the one with
/// the greatest start, and among equal starts the one appended last.
pub open spec fn last_started(log: Seq<IntervalView>, entity: Seq<char>) -> Option<int>
    decreases log.len(),
{
    if log.len() == 0 {
        None
    } else {
        let k = log.len() - 1;
        let earlier = last_started(log.drop_last(), entity);
        if log[k].entity != entity {
            earlier
        } else if earlier is Some && log[earlier->0].from > log[k].from {
            earlier
        } else {
            Some(k)
        }
    }
}

/// The log after appending a zero-length interval of `entity` at `from`.
pub open spec fn inserted(log: Seq<IntervalView>, entity: Seq<char>, from: int) -> Seq<
    IntervalView,
> {
    if entity.len() == 0 {
        log
    } else {
        log.push(IntervalView { entity, from, to: from })
    }
}

/// The log after moving the end of the most recently started interval of
/// `entity` to `to`. Nothing changes when `entity` is empty or has no
/// interval, or when `to` precedes the start of that interval.
pub open spec fn extended(log: Seq<IntervalView>, entity: Seq<char>, to: int) -> Seq<
    IntervalView,
> {
    match last_started(log, entity) {
        Some(k) if entity.len() > 0 && to >= log[k].from => log.update(
            k,
            IntervalView { entity: log[k].entity, from: log[k].from, to },
        ),
        _ => log,
    }
}

/// `last_started` names an interval of the entity that no other interval of
/// the entity starts after, nor ties with from a later position.
pub proof fn lemma_last_started(log: Seq<IntervalView>, entity: Seq<char>)
    ensures
        match last_started(log, entity) {
            Some(k) => {
                &&& 0 <= k < log.len()
                &&& log[k].entity == entity
                &&& forall|j: int|
                    0 <= j < log.len() && (#[trigger] log[j]).entity == entity ==> log[j].from
                        < log[k].from || (log[j].from == log[k].from && j <= k)
            },
            None => forall|j: int| 0 <= j < log.len() ==> (#[trigger] log[j]).entity != entity,
        },
    decreases log.len(),
{
    if log.len() > 0 {
        let rest = log.drop_last();
        lemma_last_started(rest, entity);
        assert(forall|j: int| 0 <= j < rest.len() ==> rest[j] == log[j]);
    }
}

/// The earliest start among the intervals of the log; `otherwise` when the
/// log is empty.
pub open spec fn min_start(log: Seq<IntervalView>, otherwise: int) -> int
    decreases log.len(),
{
    if log.len() == 0 {
        otherwise
    } else if log.len() == 1 {
        log[0].from
    } else {
        let rest = min_start(log.drop_last(), otherwise);
        if log.last().from < rest {
            log.last().from
        } else {
            rest
        }
    }
}

/// What is wrong with an interval, if anything: an empty name, or an end
/// before the start.
pub open spec fn row_fault(row: IntervalView) -> Option<StoreError> {
    if row.entity.len() == 0 {
        Some(StoreError::EmptyEntity)
    } else if row.to < row.from {
        Some(StoreError::EndBeforeStart)
    } else {
        None
    }
}

/// The contents of a list of intervals.
pub open spec fn rows_view(rows: Seq<Interval>) -> Seq<IntervalView> {
    rows.map_values(|row: Interval| row@)
}

/// The earliest start is the start of some interval and no later than any.
pub proof fn lemma_min_start(log: Seq<IntervalView>, otherwise: int)
    requires
        log.len() > 0,
    ensures
        exists|i: int| 0 <= i < log.len() && #[trigger] log[i].from == min_start(log, otherwise),
        forall|i: int| 0 <= i < log.len() ==> min_start(log, otherwise) <= #[trigger] log[i].from,
    decreases log.len(),
{
    if log.len() == 1 {
        assert(log[0].from == min_start(log, otherwise));
    } else {
        let rest = log.drop_last();
        lemma_min_start(rest, otherwise);
        let i = choose|i: int| 0 <= i < rest.len() && #[trigger] rest[i].from == min_start(rest, otherwise);
        assert(rest[i] == log[i]);
        if log.last().from < min_start(rest, otherwise) {
            assert(log[log.len() - 1].from == min_start(log, otherwise));
        } else {
            assert(log[i].from == min_start(log, otherwise));
        }
        assert forall|j: int| 0 <= j < log.len() implies min_start(log, otherwise)
            <= #[trigger] log[j].from by {
            if j < rest.len() {
                assert(rest[j] == log[j]);
            }
        }
    }
}

/// The in-memory session store.
pub struct Db {
    log: Vec<Interval>,
}

impl View for Db {
    type V = Seq<IntervalView>;

    closed spec fn view(&self) -> Seq<IntervalView> {
        self.log@.map_values(|row: Interval| row@)
    }
}

impl Db {
    /// The store's invariant: its log is well formed.
    pub open spec fn wf(&self) -> bool {
        well_formed(self@)
    }

    /// An empty store.
    pub fn init() -> (db: Db)
        ensures
            db@ == Seq::<IntervalView>::empty(),
            db.wf(),
    {
        let db = Db { log: Vec::new() };
        assert(db@ =~= Seq::<IntervalView>::empty());
        db
    }

    /// A store holding `rows`, as read back from where they are kept. Fails
    /// with the fault of the first interval that has one.
    pub fn load(rows: Vec<Interval>) -> (r: Result<Db, StoreError>)
        ensures
            match r {
                Ok(db) => db.wf() && db@ == rows_view(rows@),
                Err(e) => exists|i: int|
                    0 <= i < rows@.len() && row_fault(#[trigger] rows@[i]@) == Some(e) && forall|
                        j: int,
                    | 0 <= j < i ==> row_fault(#[trigger] rows@[j]@) is None,
            },
    {
        let mut i: usize = 0;
        while i < rows.len()
            invariant
                i <= rows@.len(),
                forall|j: int| 0 <= j < i ==> row_fault(#[trigger] rows@[j]@) is None,
            decreases rows@.len() - i,
        {
            if rows[i].window_name.as_str().is_empty() {
                assert(row_fault(rows@[i as int]@) == Some(StoreError::EmptyEntity));
                return Err(StoreError::EmptyEntity);
            }
            if rows[i].time_to < rows[i].time_from {
                assert(row_fault(rows@[i as int]@) == Some(StoreError::EndBeforeStart));
                return Err(StoreError::EndBeforeStart);
            }
            i += 1;
        }
        let db = Db { log: rows };
        proof {
            assert forall|j: int| 0 <= j < db@.len() implies {
                &&& (#[trigger] db@[j]).entity.len() > 0
                &&& 0 <= db@[j].from <= db@[j].to <= u32::MAX
            } by {
                assert(row_fault(rows@[j]@) is None);
            }
        }
        Ok(db)
    }

    /// The stored intervals in the order they were appended.
    pub fn rows(&self) -> (rows: &Vec<Interval>)
        ensures
            rows_view(rows@) == self@,
    {
        &self.log
    }

    /// Appends the zero-length interval `(window_name, time_from, time_from)`.
    /// An empty name is refused and leaves the store unchanged.
    pub fn insert(&mut self, window_name: &String, time_from: u32) -> (r: Result<(), StoreError>)
        requires
            old(self).wf(),
        ensures
            final(self).wf(),
            final(self)@ == inserted(old(self)@, window_name@, time_from as int),
            r == if window_name@.len() == 0 {
                Err::<(), StoreError>(StoreError::EmptyEntity)
            } else {
                Ok(())
            },
    {
        if window_name.as_str().is_empty() {
            return Err(StoreError::EmptyEntity);
        }
        let row = Interval { window_name: window_name.clone(), time_from, time_to: time_from };
        self.log.push(row);
        assert(self@ =~= inserted(old(self)@, window_name@, time_from as int));
        Ok(())
    }

    /// Position of the most recently started interval of `window_name`.
    fn find_last_started(&self, window_name: &String) -> (found: Option<usize>)
        ensures
            found is Some <==> last_started(self@, window_name@) is Some,
            found is Some ==> found->0 as int == last_started(self@, window_name@)->0,
            found is Some ==> found->0 < self.log@.len(),
    {
        let mut found: Option<usize> = None;
        let mut i: usize = 0;
        while i < self.log.len()
            invariant
                i <= self.log@.len(),
                self@.len() == self.log@.len(),
                found is Some <==> last_started(self@.take(i as int), window_name@) is Some,
                found is Some ==> found->0 as int == last_started(
                    self@.take(i as int),
                    window_name@,
                )->0,
                found is Some ==> found->0 < i,
            decreases self.log@.len() - i,
        {
            proof {
                assert(self@.take(i + 1).drop_last() =~= self@.take(i as int));
                assert(self@.take(i + 1)[i as int] == self.log@[i as int]@);
                lemma_last_started(self@.take(i as int), window_name@);
            }
            if self.log[i].window_name == *window_name {
                let later = match found {
                    Some(k) => self.log[k].time_from <= self.log[i].time_from,
                    None => true,
                };
                if later {
                    found = Some(i);
                }
            }
            i += 1;
        }
        proof {
            assert(self@.take(i as int) =~= self@);
        }
        found
    }

    /// Moves the end of the most recently started interval of `window_name` to
    /// `time_to`. A name with no interval is accepted and changes nothing. An
    /// empty name, or an end before the interval's start, is refused and
    /// changes nothing.
    pub fn update_last(&mut self, window_name: &String, time_to: u32) -> (r: Result<
        (),
        StoreError,
    >)
        requires
            old(self).wf(),
        ensures
            final(self).wf(),
            final(self)@ == extended(old(self)@, window_name@, time_to as int),
            r == if window_name@.len() == 0 {
                Err::<(), StoreError>(StoreError::EmptyEntity)
            } else if last_started(old(self)@, window_name@) is Some && time_to < old(self)@[last_started(
                old(self)@,
                window_name@,
            )->0].from {
                Err(StoreError::EndBeforeStart)
            } else {
                Ok(())
            },
    {
        if window_name.as_str().is_empty() {
            return Err(StoreError::EmptyEntity);
        }
        match self.find_last_started(window_name) {
            None => Ok(()),
            Some(k) => {
                if time_to < self.log[k].time_from {
                    return Err(StoreError::EndBeforeStart);
                }
                let row = Interval {
                    window_name: self.log[k].window_name.clone(),
                    time_from: self.log[k].time_from,
                    time_to,
                };
                self.log.set(k, row);
                assert(self@ =~= extended(old(self)@, window_name@, time_to as int));
                Ok(())
            },
        }
    }

    /// The report over `period`: for each application with a positive total of
    /// seconds in intervals wholly inside the period, one line with that
    /// total; lines with more seconds first, and lines with equal seconds in
    /// the order in which their applications first appear. Without a period
    /// every interval counts. Fails exactly when a total exceeds 32 bits.
    pub fn get_stats(&self, period: Option<(u32, u32)>) -> (r: Result<Vec<WindowStat>, StoreError>)
        requires
            self.wf(),
        ensures
            r is Err <==> overflows(self@, period),
            match r {
                Ok(stats) => is_report(self@, period, stats_view(stats@)),
                Err(e) => e == StoreError::TotalOverflow,
            },
    {
        aggregate(self, period)
    }

    /// Carries out one operation of the sampler.
    pub fn apply(&mut self, op: &StoreOp) -> (r: Result<(), StoreError>)
        requires
            old(self).wf(),
        ensures
            final(self).wf(),
            final(self)@ == applied(old(self)@, op@),
            r is Ok <==> op_accepted(old(self)@, op@),
    {
        match op {
            StoreOp::Insert { window_name, time_from } => self.insert(window_name, *time_from),
            StoreOp::UpdateLast { window_name, time_to } => self.update_last(window_name, *time_to),
        }
    }

    /// Carries out the operations of a sample, first to last, passing over
    /// those the store refuses. Tells whether it refused none.
    pub fn apply_all(&mut self, ops: &Vec<StoreOp>) -> (clean: bool)
        requires
            old(self).wf(),
        ensures
            final(self).wf(),
            final(self)@ == applied_all(old(self)@, ops_view(ops@)),
            clean == all_accepted(old(self)@, ops_view(ops@)),
    {
        let mut clean = true;
        let mut i: usize = 0;
        let ghost all = ops_view(ops@);
        proof {
            assert(all.take(0) =~= Seq::<StoreOpView>::empty());
        }
        while i < ops.len()
            invariant
                i <= ops@.len(),
                all == ops_view(ops@),
                self.wf(),
                self@ == applied_all(old(self)@, all.take(i as int)),
                clean == all_accepted(old(self)@, all.take(i as int)),
            decreases ops@.len() - i,
        {
            proof {
                assert(all.take(i + 1).drop_last() =~= all.take(i as int));
                assert(all.take(i + 1).last() == ops@[i as int]@);
            }
            if self.apply(&ops[i]).is_err() {
                clean = false;
            }
            i += 1;
        }
        proof {
            assert(all.take(i as int) =~= all);
        }
        clean
    }

    /// The earliest start of any interval, or `now` for an empty store.
    pub fn min_start_timestamp(&self, now: u32) -> (earliest: u32)
        ensures
            earliest == min_start(self@, now as int),
    {
        let mut earliest = now;
        let mut i: usize = 0;
        proof {
            assert(self@.take(0) =~= Seq::<IntervalView>::empty());
        }
        while i < self.log.len()
            invariant
                i <= self.log@.len(),
                self@.len() == self.log@.len(),
                i == 0 ==> earliest == now,
                earliest == min_start(self@.take(i as int), now as int),
            decreases self.log@.len() - i,
        {
            proof {
                assert(self@.take(i + 1).drop_last() =~= self@.take(i as int));
                assert(self@.take(i + 1).last() == self.log@[i as int]@);
            }
            if i == 0 || self.log[i].time_from < earliest {
                earliest = self.log[i].time_from;
            }
            i += 1;
        }
        proof {
            assert(self@.take(i as int) =~= self@);
        }
        earliest
    }

    /// The UTC day of the earliest start of any interval, or `today` for an
    /// empty store: the earliest day a report can begin.
    pub fn get_min_date(&self, today: Date) -> (date: Date)
        requires
            today.valid(),
        ensures
            date.valid(),
            date == if self@.len() == 0 {
                today
            } else {
                Date { days: (min_start(self@, 0) / 86_400) as i32 }
            },
    {
        if self.log.len() == 0 {
            assert(self@.len() == 0);
            today
        } else {
            assert(self@.len() > 0);
            Date::from_timestamp(self.min_start_timestamp(0))
        }
    }
}

} // verus!
