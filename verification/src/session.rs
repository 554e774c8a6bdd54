//! A sampling session: the sampler, the log of what it has written, and the
//! time of the last sample, kept in step. What the sampler guarantees of a
//! log holds of a session's log at every moment.

use crate::datetime::LocalDateTime;
use crate::db::{Db, IntervalView};
use crate::timeline::{
    day_aligned, fresh_tracker_tracks, tick_keeps_days, tick_keeps_timeline, tracking,
};
use crate::tracker::{
    applied_all, is_storable, ops_view, storable, tick_cursor, tick_ops, StoreOp,
    Tracker, TrackerView,
};
use vstd::prelude::*;

verus! {

/// Why a session passed over a sample.
#[derive(Clone, Copy, Debug, PartialEq, Eq, Structural)]
pub enum SampleError {
    /// The sample's time is no timestamp of 32 bits, or its offset from UTC
    /// is a day or more.
    ClockOutOfRange,
    /// The sample's time precedes the time of the sample before.
    ClockWentBack,
}

/// The sampler, the intervals it has written since it started, and the
/// time and offset of its samples.
pub struct Session {
    db: Db,
    tracker: Tracker,
    last_sample: u32,
    offset: i32,
    one_offset: bool,
}

impl Session {
    /// The intervals written since the session started.
    pub closed spec fn log(&self) -> Seq<IntervalView> {
        self.db@
    }

    /// What the sampler remembers.
    pub closed spec fn cursor(&self) -> TrackerView {
        self.tracker@
    }

    /// The time of the last sample.
    pub closed spec fn horizon(&self) -> int {
        self.last_sample as int
    }

    /// The offset of local time from UTC at the first sample.
    pub closed spec fn first_offset(&self) -> int {
        self.offset as int
    }

    /// Whether every sample so far had the offset of the first.
    pub closed spec fn kept_offset(&self) -> bool {
        self.one_offset
    }

    /// The session's invariant: the log and the sampler are in step, and
    /// while local time has kept one offset from UTC no interval reaches past
    /// the local midnight that follows its start.
    pub open spec fn wf(&self) -> bool {
        &&& tracking(self.log(), self.cursor(), self.horizon())
        &&& self.kept_offset() ==> {
            &&& day_aligned(self.log(), self.first_offset())
            &&& self.cursor().start.offset == self.first_offset()
        }
    }

    /// A session that starts at `now` with nothing in focus and nothing
    /// written; none if `now` is no timestamp of 32 bits.
    pub fn new(now: LocalDateTime) -> (session: Option<Session>)
        ensures
            session is Some <==> storable(now),
            session is Some ==> {
                &&& session->0.wf()
                &&& session->0.log() == Seq::<IntervalView>::empty()
                &&& session->0.cursor() == (TrackerView { entity: Seq::empty(), start: now })
                &&& session->0.horizon() == now.timestamp
                &&& session->0.first_offset() == now.offset
                &&& session->0.kept_offset()
            },
    {
        if !is_storable(now) {
            return None;
        }
        proof {
            fresh_tracker_tracks(now);
        }
        Some(
            Session {
                db: Db::init(),
                tracker: Tracker::new(now),
                last_sample: now.timestamp as u32,
                offset: now.offset,
                one_offset: true,
            },
        )
    }

    /// The intervals written since the session started.
    pub fn db(&self) -> (db: &Db)
        ensures
            db@ == self.log(),
    {
        &self.db
    }

    /// The sampler.
    pub fn tracker(&self) -> (tracker: &Tracker)
        ensures
            tracker@ == self.cursor(),
    {
        &self.tracker
    }

    /// The time of the last sample.
    pub fn last_sample(&self) -> (seconds: u32)
        ensures
            seconds == self.horizon(),
    {
        self.last_sample
    }

    /// Whether every sample so far had the offset of the first, so that
    /// every interval lies within one local day.
    pub fn is_day_aligned(&self) -> (aligned: bool)
        ensures
            aligned == self.kept_offset(),
    {
        self.one_offset
    }

    /// Takes one sample: `new_display_name` has focus at `now` (empty for
    /// none). Writes what the sampler calls for to the session's log and
    /// returns it, for whoever keeps a lasting copy. A sample out of range or
    /// from before the last one is passed over and changes nothing.
    pub fn sample(&mut self, new_display_name: &String, now: LocalDateTime) -> (r: Result<
        Vec<StoreOp>,
        SampleError,
    >)
        requires
            old(self).wf(),
        ensures
            final(self).wf(),
            final(self).first_offset() == old(self).first_offset(),
            match r {
                Ok(ops) => {
                    &&& storable(now)
                    &&& old(self).horizon() <= now.timestamp
                    &&& ops_view(ops@) == tick_ops(old(self).cursor(), new_display_name@, now)
                    &&& final(self).log() == applied_all(old(self).log(), ops_view(ops@))
                    &&& final(self).cursor() == tick_cursor(
                        old(self).cursor(),
                        new_display_name@,
                        now,
                    )
                    &&& final(self).horizon() == now.timestamp
                    &&& final(self).kept_offset() == (old(self).kept_offset() && now.offset
                        == old(self).first_offset())
                },
                Err(e) => {
                    &&& final(self).log() == old(self).log()
                    &&& final(self).cursor() == old(self).cursor()
                    &&& final(self).horizon() == old(self).horizon()
                    &&& final(self).kept_offset() == old(self).kept_offset()
                    &&& e == if !storable(now) {
                        SampleError::ClockOutOfRange
                    } else {
                        SampleError::ClockWentBack
                    }
                    &&& !storable(now) || now.timestamp < old(self).horizon()
                },
            },
    {
        if !is_storable(now) {
            return Err(SampleError::ClockOutOfRange);
        }
        if now.timestamp < self.last_sample as i64 {
            return Err(SampleError::ClockWentBack);
        }
        proof {
            tick_keeps_timeline(
                self.log(),
                self.cursor(),
                self.horizon(),
                new_display_name@,
                now,
            );
            if self.one_offset && now.offset == self.offset {
                tick_keeps_days(
                    self.log(),
                    self.cursor(),
                    self.horizon(),
                    new_display_name@,
                    now,
                );
            }
        }
        let ops = self.tracker.tick(new_display_name, now);
        self.db.apply_all(&ops);
        self.last_sample = now.timestamp as u32;
        if now.offset != self.offset {
            self.one_offset = false;
        }
        Ok(ops)
    }
}

} // verus!
