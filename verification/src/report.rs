//! What a time report is: per-application totals over a period, largest first.

use crate::db::{rows_view, well_formed, Db, Interval, IntervalView, StoreError};
use vstd::prelude::*;

verus! {

/// One line of a report: an application and the seconds it held focus.
#[derive(Clone, Debug, PartialEq, Eq)]
pub struct WindowStat {
    pub window_name: String,
    pub seconds: u32,
}

/// The mathematical content of a [`WindowStat`].
pub struct WindowStatView {
    pub entity: Seq<char>,
    pub seconds: int,
}

impl View for WindowStat {
    type V = WindowStatView;

    open spec fn view(&self) -> WindowStatView {
        WindowStatView { entity: self.window_name@, seconds: self.seconds as int }
    }
}

/// The contents of a list of report lines.
pub open spec fn stats_view(stats: Seq<WindowStat>) -> Seq<WindowStatView> {
    stats.map_values(|s: WindowStat| s@)
}

/// Whether an interval lies wholly inside the period. Without a period every
/// interval does; an interval that only overlaps the period does not.
pub open spec fn in_period(row: IntervalView, period: Option<(u32, u32)>) -> bool {
    match period {
        None => true,
        Some((from, to)) => row.from >= from && row.to <= to,
    }
}

/// Whether an interval counts toward `entity`'s total over the period.
pub open spec fn counted(row: IntervalView, entity: Seq<char>, period: Option<(u32, u32)>) -> bool {
    row.entity == entity && in_period(row, period)
}

/// Seconds that `entity` held focus in intervals inside the period.
pub open spec fn total_seconds(
    log: Seq<IntervalView>,
    entity: Seq<char>,
    period: Option<(u32, u32)>,
) -> int
    decreases log.len(),
{
    if log.len() == 0 {
        0
    } else {
        total_seconds(log.drop_last(), entity, period) + if counted(log.last(), entity, period) {
            log.last().to - log.last().from
        } else {
            0
        }
    }
}

/// Position of the first interval that counts toward `entity`'s total, or
/// the length of the log when none does.
pub open spec fn first_counted(
    log: Seq<IntervalView>,
    entity: Seq<char>,
    period: Option<(u32, u32)>,
) -> int
    decreases log.len(),
{
    if log.len() == 0 {
        0
    } else {
        let earlier = first_counted(log.drop_last(), entity, period);
        if earlier < log.len() - 1 {
            earlier
        } else if counted(log.last(), entity, period) {
            log.len() - 1
        } else {
            log.len() as int
        }
    }
}

/// Order of two report lines: more seconds first; with equal seconds, the
/// application whose first counted interval is earlier in the log.
pub open spec fn precedes(
    log: Seq<IntervalView>,
    period: Option<(u32, u32)>,
    a: WindowStatView,
    b: WindowStatView,
) -> bool {
    a.seconds > b.seconds || (a.seconds == b.seconds && first_counted(log, a.entity, period)
        < first_counted(log, b.entity, period))
}

/// Whether `report` is the report of `log` over `period`: one line for each
/// application with a positive total, carrying that total, in `precedes` order.
pub open spec fn is_report(
    log: Seq<IntervalView>,
    period: Option<(u32, u32)>,
    report: Seq<WindowStatView>,
) -> bool {
    &&& forall|i: int|
        0 <= i < report.len() ==> {
            &&& (#[trigger] report[i]).seconds == total_seconds(log, report[i].entity, period)
            &&& report[i].seconds > 0
        }
    &&& forall|entity: Seq<char>| #[trigger]
        total_seconds(log, entity, period) > 0 ==> exists|i: int|
            0 <= i < report.len() && (#[trigger] report[i]).entity == entity
    &&& forall|i: int, j: int|
        0 <= i < j < report.len() ==> precedes(log, period, #[trigger] report[i], #[trigger] report[j])
}

/// Whether some application's total over the period exceeds 32 bits.
pub open spec fn overflows(log: Seq<IntervalView>, period: Option<(u32, u32)>) -> bool {
    exists|entity: Seq<char>| #[trigger] total_seconds(log, entity, period) > u32::MAX
}

/// `first_counted` names the earliest counted interval, when there is one.
pub proof fn lemma_first_counted(
    log: Seq<IntervalView>,
    entity: Seq<char>,
    period: Option<(u32, u32)>,
)
    ensures
        0 <= first_counted(log, entity, period) <= log.len(),
        first_counted(log, entity, period) < log.len() ==> counted(
            log[first_counted(log, entity, period)],
            entity,
            period,
        ),
        forall|j: int|
            0 <= j < first_counted(log, entity, period) ==> !counted(
                #[trigger] log[j],
                entity,
                period,
            ),
    decreases log.len(),
{
    if log.len() > 0 {
        let rest = log.drop_last();
        lemma_first_counted(rest, entity, period);
        assert(forall|j: int| 0 <= j < rest.len() ==> rest[j] == log[j]);
    }
}

/// An application with no counted interval has a total of zero.
pub proof fn lemma_uncounted_total(
    log: Seq<IntervalView>,
    entity: Seq<char>,
    period: Option<(u32, u32)>,
)
    requires
        first_counted(log, entity, period) == log.len(),
    ensures
        total_seconds(log, entity, period) == 0,
    decreases log.len(),
{
    if log.len() > 0 {
        lemma_first_counted(log.drop_last(), entity, period);
        lemma_uncounted_total(log.drop_last(), entity, period);
    }
}

/// Totals are never negative and only grow as the log is read further.
pub proof fn lemma_total_monotone(
    log: Seq<IntervalView>,
    n: int,
    entity: Seq<char>,
    period: Option<(u32, u32)>,
)
    requires
        well_formed(log),
        0 <= n <= log.len(),
    ensures
        0 <= total_seconds(log.take(n), entity, period) <= total_seconds(log, entity, period),
    decreases log.len(),
{
    if n == log.len() {
        assert(log.take(n) =~= log);
        if log.len() > 0 {
            lemma_total_monotone(log.drop_last(), n - 1, entity, period);
            assert(log.drop_last().take(n - 1) =~= log.drop_last());
        }
    } else {
        lemma_total_monotone(log.drop_last(), n, entity, period);
        assert(log.drop_last().take(n) =~= log.take(n));
    }
}

/// Two sequences in `precedes` order that hold the same lines are equal.
proof fn lemma_same_lines_same_order(
    log: Seq<IntervalView>,
    period: Option<(u32, u32)>,
    a: Seq<WindowStatView>,
    b: Seq<WindowStatView>,
)
    requires
        forall|i: int, j: int|
            0 <= i < j < a.len() ==> precedes(log, period, #[trigger] a[i], #[trigger] a[j]),
        forall|i: int, j: int|
            0 <= i < j < b.len() ==> precedes(log, period, #[trigger] b[i], #[trigger] b[j]),
        forall|i: int| 0 <= i < a.len() ==> b.contains(#[trigger] a[i]),
        forall|i: int| 0 <= i < b.len() ==> a.contains(#[trigger] b[i]),
    ensures
        a == b,
    decreases a.len(),
{
    if a.len() == 0 {
        if b.len() > 0 {
            assert(a.contains(b[0]));
        }
        assert(a =~= b);
    } else {
        let last = a.last();
        assert(b.contains(a[a.len() - 1]));
        let j = choose|j: int| 0 <= j < b.len() && b[j] == last;
        if j < b.len() - 1 {
            let other = b[b.len() - 1];
            assert(precedes(log, period, b[j], b[b.len() - 1]));
            assert(a.contains(b[b.len() - 1]));
            let i = choose|i: int| 0 <= i < a.len() && a[i] == other;
            if i < a.len() - 1 {
                assert(precedes(log, period, a[i], a[a.len() - 1]));
            }
        }
        let a0 = a.drop_last();
        let b0 = b.drop_last();
        assert forall|i: int| 0 <= i < a0.len() implies b0.contains(#[trigger] a0[i]) by {
            assert(a0[i] == a[i]);
            assert(b.contains(a[i]));
            let k = choose|k: int| 0 <= k < b.len() && b[k] == a[i];
            if k == b.len() - 1 {
                assert(precedes(log, period, a[i], a[a.len() - 1]));
            }
            assert(b0[k] == a0[i]);
        }
        assert forall|i: int| 0 <= i < b0.len() implies a0.contains(#[trigger] b0[i]) by {
            assert(b0[i] == b[i]);
            assert(a.contains(b[i]));
            let k = choose|k: int| 0 <= k < a.len() && a[k] == b[i];
            if k == a.len() - 1 {
                assert(precedes(log, period, b[i], b[b.len() - 1]));
            }
            assert(a0[k] == b0[i]);
        }
        assert forall|i: int, k: int| 0 <= i < k < a0.len() implies precedes(
            log,
            period,
            #[trigger] a0[i],
            #[trigger] a0[k],
        ) by {
            assert(a0[i] == a[i] && a0[k] == a[k]);
        }
        assert forall|i: int, k: int| 0 <= i < k < b0.len() implies precedes(
            log,
            period,
            #[trigger] b0[i],
            #[trigger] b0[k],
        ) by {
            assert(b0[i] == b[i] && b0[k] == b[k]);
        }
        lemma_same_lines_same_order(log, period, a0, b0);
        assert(a =~= a0.push(last));
        assert(b =~= b0.push(last));
    }
}

/// A log has one report per period: whatever is a report of the log over the
/// period equals every other. Asking twice of an unchanged store therefore
/// gives the same lines in the same order.
pub proof fn report_is_unique(
    log: Seq<IntervalView>,
    period: Option<(u32, u32)>,
    first: Seq<WindowStatView>,
    second: Seq<WindowStatView>,
)
    requires
        is_report(log, period, first),
        is_report(log, period, second),
    ensures
        first == second,
{
    assert forall|i: int| 0 <= i < first.len() implies second.contains(#[trigger] first[i]) by {
        let k = choose|k: int|
            0 <= k < second.len() && (#[trigger] second[k]).entity == first[i].entity;
        assert(second[k] == first[i]);
    }
    assert forall|i: int| 0 <= i < second.len() implies first.contains(#[trigger] second[i]) by {
        let k = choose|k: int|
            0 <= k < first.len() && (#[trigger] first[k]).entity == second[i].entity;
        assert(first[k] == second[i]);
    }
    lemma_same_lines_same_order(log, period, first, second);
}

/// An interval that ends when it starts adds nothing to any total.
pub proof fn zero_duration_adds_nothing(
    log: Seq<IntervalView>,
    row: IntervalView,
    entity: Seq<char>,
    period: Option<(u32, u32)>,
)
    requires
        row.from == row.to,
    ensures
        total_seconds(log.push(row), entity, period) == total_seconds(log, entity, period),
{
    assert(log.push(row).drop_last() =~= log);
}

/// An application whose intervals all end when they start has a total of
/// zero and no line in the report.
pub proof fn zero_duration_excluded(
    log: Seq<IntervalView>,
    entity: Seq<char>,
    period: Option<(u32, u32)>,
    report: Seq<WindowStatView>,
)
    requires
        forall|i: int|
            0 <= i < log.len() && (#[trigger] log[i]).entity == entity ==> log[i].from == log[i].to,
        is_report(log, period, report),
    ensures
        total_seconds(log, entity, period) == 0,
        forall|i: int| 0 <= i < report.len() ==> (#[trigger] report[i]).entity != entity,
{
    lemma_zero_total(log, entity, period);
}

/// The total of an application whose intervals all end when they start.
proof fn lemma_zero_total(log: Seq<IntervalView>, entity: Seq<char>, period: Option<(u32, u32)>)
    requires
        forall|i: int|
            0 <= i < log.len() && (#[trigger] log[i]).entity == entity ==> log[i].from == log[i].to,
    ensures
        total_seconds(log, entity, period) == 0,
    decreases log.len(),
{
    if log.len() > 0 {
        let rest = log.drop_last();
        assert forall|i: int| 0 <= i < rest.len() && (#[trigger] rest[i]).entity
            == entity implies rest[i].from == rest[i].to by {
            assert(rest[i] == log[i]);
        }
        lemma_zero_total(rest, entity, period);
    }
}

/// Whether `groups` holds the totals of `log` over `period`: one entry for
/// each application with a counted interval, carrying its total, in the order
/// in which the applications first appear.
pub open spec fn grouped(
    log: Seq<IntervalView>,
    period: Option<(u32, u32)>,
    groups: Seq<WindowStatView>,
) -> bool {
    &&& forall|k: int|
        0 <= k < groups.len() ==> {
            &&& (#[trigger] groups[k]).seconds == total_seconds(log, groups[k].entity, period)
            &&& first_counted(log, groups[k].entity, period) < log.len()
        }
    &&& forall|k: int, l: int|
        0 <= k < l < groups.len() ==> first_counted(log, (#[trigger] groups[k]).entity, period)
            < first_counted(log, (#[trigger] groups[l]).entity, period)
    &&& forall|entity: Seq<char>| #[trigger]
        first_counted(log, entity, period) < log.len() ==> exists|k: int|
            0 <= k < groups.len() && (#[trigger] groups[k]).entity == entity
}

/// Position in the log before which the first `g` groups first appear.
pub open spec fn group_bound(
    log: Seq<IntervalView>,
    period: Option<(u32, u32)>,
    groups: Seq<WindowStatView>,
    g: int,
) -> int {
    if 0 <= g < groups.len() {
        first_counted(log, groups[g].entity, period)
    } else {
        log.len() as int
    }
}

/// Whether `ranked` holds the first `g` entries of `groups` that have a
/// positive total, in `precedes` order.
pub open spec fn ranked_prefix(
    log: Seq<IntervalView>,
    period: Option<(u32, u32)>,
    groups: Seq<WindowStatView>,
    g: int,
    ranked: Seq<WindowStatView>,
) -> bool {
    &&& forall|x: int|
        0 <= x < ranked.len() ==> {
            &&& (#[trigger] ranked[x]).seconds > 0
            &&& ranked[x].seconds == total_seconds(log, ranked[x].entity, period)
            &&& first_counted(log, ranked[x].entity, period) < group_bound(log, period, groups, g)
        }
    &&& forall|k: int|
        0 <= k < g && (#[trigger] groups[k]).seconds > 0 ==> exists|x: int|
            0 <= x < ranked.len() && #[trigger] ranked[x] == groups[k]
    &&& forall|x: int, y: int|
        0 <= x < y < ranked.len() ==> precedes(log, period, #[trigger] ranked[x], #[trigger] ranked[y])
}

/// The bound of the groups placed so far only moves forward.
proof fn lemma_group_bound_grows(
    log: Seq<IntervalView>,
    period: Option<(u32, u32)>,
    groups: Seq<WindowStatView>,
    g: int,
)
    requires
        grouped(log, period, groups),
        0 <= g < groups.len(),
    ensures
        group_bound(log, period, groups, g) < group_bound(log, period, groups, g + 1),
{
    if g + 1 < groups.len() {
        assert(first_counted(log, groups[g].entity, period) < first_counted(
            log,
            groups[g + 1].entity,
            period,
        ));
    } else {
        assert(first_counted(log, groups[g].entity, period) < log.len());
    }
}

/// Placing the next group after every line with at least its seconds, and
/// before every line with fewer, keeps the lines ranked.
proof fn lemma_rank_next(
    log: Seq<IntervalView>,
    period: Option<(u32, u32)>,
    groups: Seq<WindowStatView>,
    g: int,
    ranked: Seq<WindowStatView>,
    at: int,
)
    requires
        grouped(log, period, groups),
        0 <= g < groups.len(),
        ranked_prefix(log, period, groups, g, ranked),
        groups[g].seconds > 0,
        0 <= at <= ranked.len(),
        forall|x: int| 0 <= x < at ==> (#[trigger] ranked[x]).seconds >= groups[g].seconds,
        at < ranked.len() ==> ranked[at].seconds < groups[g].seconds,
    ensures
        ranked_prefix(log, period, groups, g + 1, ranked.insert(at, groups[g])),
{
    let next = ranked.insert(at, groups[g]);
    lemma_group_bound_grows(log, period, groups, g);
    assert forall|x: int| 0 <= x < next.len() implies {
        &&& (#[trigger] next[x]).seconds > 0
        &&& next[x].seconds == total_seconds(log, next[x].entity, period)
        &&& first_counted(log, next[x].entity, period) < group_bound(log, period, groups, g + 1)
    } by {
        if x < at {
            assert(next[x] == ranked[x]);
        } else if x > at {
            assert(next[x] == ranked[x - 1]);
        } else {
            assert(next[x] == groups[g]);
        }
    }
    assert forall|k: int| 0 <= k < g + 1 && (#[trigger] groups[k]).seconds > 0 implies exists|
        x: int,
    | 0 <= x < next.len() && #[trigger] next[x] == groups[k] by {
        if k < g {
            let x = choose|x: int| 0 <= x < ranked.len() && #[trigger] ranked[x] == groups[k];
            if x < at {
                assert(next[x] == ranked[x]);
            } else {
                assert(next[x + 1] == ranked[x]);
            }
        } else {
            assert(next[at] == groups[k]);
        }
    }
    assert forall|x: int, y: int| 0 <= x < y < next.len() implies precedes(
        log,
        period,
        #[trigger] next[x],
        #[trigger] next[y],
    ) by {
        if y < at {
            assert(next[x] == ranked[x] && next[y] == ranked[y]);
        } else if x > at {
            assert(next[x] == ranked[x - 1] && next[y] == ranked[y - 1]);
        } else if x < at && y > at {
            assert(next[x] == ranked[x] && next[y] == ranked[y - 1]);
        } else if y == at {
            assert(next[x] == ranked[x]);
        } else {
            assert(next[y] == ranked[y - 1]);
            if y - 1 > at {
                assert(precedes(log, period, ranked[at], ranked[y - 1]));
            }
        }
    }
}

/// A group without seconds is passed over.
proof fn lemma_rank_skip(
    log: Seq<IntervalView>,
    period: Option<(u32, u32)>,
    groups: Seq<WindowStatView>,
    g: int,
    ranked: Seq<WindowStatView>,
)
    requires
        grouped(log, period, groups),
        0 <= g < groups.len(),
        ranked_prefix(log, period, groups, g, ranked),
        groups[g].seconds <= 0,
    ensures
        ranked_prefix(log, period, groups, g + 1, ranked),
{
    lemma_group_bound_grows(log, period, groups, g);
}

/// Once every group is placed, the ranked lines are the report.
proof fn lemma_ranked_is_report(
    log: Seq<IntervalView>,
    period: Option<(u32, u32)>,
    groups: Seq<WindowStatView>,
    ranked: Seq<WindowStatView>,
)
    requires
        grouped(log, period, groups),
        ranked_prefix(log, period, groups, groups.len() as int, ranked),
    ensures
        is_report(log, period, ranked),
{
    assert forall|entity: Seq<char>| #[trigger]
        total_seconds(log, entity, period) > 0 implies exists|i: int|
        0 <= i < ranked.len() && (#[trigger] ranked[i]).entity == entity by {
        lemma_first_counted(log, entity, period);
        if first_counted(log, entity, period) == log.len() {
            lemma_uncounted_total(log, entity, period);
        }
        let k = choose|k: int| 0 <= k < groups.len() && (#[trigger] groups[k]).entity == entity;
        let x = choose|x: int| 0 <= x < ranked.len() && #[trigger] ranked[x] == groups[k];
        assert(ranked[x].entity == entity);
    }
}

/// With every application grouped into a 32-bit total, no total overflows.
proof fn lemma_grouped_fits(
    log: Seq<IntervalView>,
    period: Option<(u32, u32)>,
    groups: Seq<WindowStatView>,
)
    requires
        grouped(log, period, groups),
        forall|k: int| 0 <= k < groups.len() ==> (#[trigger] groups[k]).seconds <= u32::MAX,
    ensures
        !overflows(log, period),
{
    assert forall|entity: Seq<char>| #[trigger]
        total_seconds(log, entity, period) <= u32::MAX by {
        lemma_first_counted(log, entity, period);
        if first_counted(log, entity, period) < log.len() {
            let k = choose|k: int| 0 <= k < groups.len() && (#[trigger] groups[k]).entity == entity;
        } else {
            lemma_uncounted_total(log, entity, period);
        }
    }
}

/// Totals per application over `period`, in order of first appearance.
fn group_totals(rows: &Vec<Interval>, period: Option<(u32, u32)>) -> (r: Result<
    Vec<WindowStat>,
    StoreError,
>)
    requires
        well_formed(rows_view(rows@)),
    ensures
        match r {
            Ok(groups) => grouped(rows_view(rows@), period, stats_view(groups@)),
            Err(e) => e == StoreError::TotalOverflow && overflows(rows_view(rows@), period),
        },
{
    let ghost log = rows_view(rows@);
    let mut groups: Vec<WindowStat> = Vec::new();
    let mut i: usize = 0;
    proof {
        assert(log.take(0) =~= Seq::<IntervalView>::empty());
    }
    while i < rows.len()
        invariant
            i <= rows@.len(),
            log == rows_view(rows@),
            well_formed(log),
            grouped(log.take(i as int), period, stats_view(groups@)),
        decreases rows@.len() - i,
    {
        let ghost before = log.take(i as int);
        let ghost after = log.take(i + 1);
        let ghost old_groups = stats_view(groups@);
        let ghost old_entries = groups@;
        proof {
            assert(after.drop_last() =~= before);
            assert(after.last() == rows@[i as int]@);
            assert(log[i as int] == rows@[i as int]@);
        }
        let row = &rows[i];
        let inside = match period {
            None => true,
            Some((from, to)) => row.time_from >= from && row.time_to <= to,
        };
        if inside {
            let duration = row.time_to - row.time_from;
            let mut k: usize = 0;
            while k < groups.len() && groups[k].window_name != row.window_name
                invariant
                    k <= groups@.len(),
                    forall|l: int| 0 <= l < k ==> (#[trigger] groups@[l])@.entity != row@.entity,
                decreases groups@.len() - k,
            {
                k += 1;
            }
            if k < groups.len() {
                let sum = match groups[k].seconds.checked_add(duration) {
                    Some(sum) => sum,
                    None => {
                        proof {
                            lemma_total_monotone(log, i + 1, row@.entity, period);
                            assert(old_groups[k as int] == groups@[k as int]@);
                        }
                        return Err(StoreError::TotalOverflow);
                    },
                };
                let entry = WindowStat { window_name: groups[k].window_name.clone(), seconds: sum };
                groups.set(k, entry);
                proof {
                    let new_groups = stats_view(groups@);
                    assert(new_groups.len() == old_groups.len());
                    assert forall|l: int| 0 <= l < new_groups.len() implies {
                        &&& (#[trigger] new_groups[l]).entity == old_groups[l].entity
                        &&& new_groups[l].seconds == total_seconds(
                            after,
                            new_groups[l].entity,
                            period,
                        )
                        &&& first_counted(after, new_groups[l].entity, period)
                            == first_counted(before, new_groups[l].entity, period)
                    } by {
                        assert(new_groups[l] == groups@[l]@);
                        assert(old_groups[l] == old_entries[l]@);
                        assert(old_groups[k as int] == old_entries[k as int]@);
                        if l < k {
                            assert(first_counted(before, old_groups[l].entity, period)
                                < first_counted(before, old_groups[k as int].entity, period));
                        } else if l > k {
                            assert(first_counted(before, old_groups[k as int].entity, period)
                                < first_counted(before, old_groups[l].entity, period));
                        }
                    }
                    assert forall|entity: Seq<char>| #[trigger]
                        first_counted(after, entity, period) < after.len() implies exists|
                        l: int,
                    |
                        0 <= l < new_groups.len() && (#[trigger] new_groups[l]).entity
                            == entity by {
                        if first_counted(before, entity, period) < before.len() {
                            let l = choose|l: int|
                                0 <= l < old_groups.len() && (#[trigger] old_groups[l]).entity
                                    == entity;
                            assert(new_groups[l].entity == entity);
                        } else {
                            assert(new_groups[k as int].entity == entity);
                        }
                    }
                }
            } else {
                let entry = WindowStat { window_name: row.window_name.clone(), seconds: duration };
                groups.push(entry);
                proof {
                    let new_groups = stats_view(groups@);
                    let fresh = row@.entity;
                    assert(new_groups =~= old_groups.push(
                        WindowStatView { entity: fresh, seconds: duration as int },
                    ));
                    lemma_first_counted(before, fresh, period);
                    if first_counted(before, fresh, period) < before.len() {
                        let l = choose|l: int|
                            0 <= l < old_groups.len() && (#[trigger] old_groups[l]).entity
                                == fresh;
                        assert(groups@[l]@.entity == fresh);
                    }
                    lemma_uncounted_total(before, fresh, period);
                    assert forall|entity: Seq<char>| #[trigger]
                        first_counted(after, entity, period) < after.len() implies exists|
                        l: int,
                    |
                        0 <= l < new_groups.len() && (#[trigger] new_groups[l]).entity
                            == entity by {
                        if first_counted(before, entity, period) < before.len() {
                            let l = choose|l: int|
                                0 <= l < old_groups.len() && (#[trigger] old_groups[l]).entity
                                    == entity;
                            assert(new_groups[l].entity == entity);
                        } else {
                            assert(new_groups[old_groups.len() as int].entity == entity);
                        }
                    }
                }
            }
        } else {
            proof {
                assert forall|entity: Seq<char>| #[trigger]
                    first_counted(after, entity, period) < after.len() implies exists|l: int|
                    0 <= l < old_groups.len() && (#[trigger] old_groups[l]).entity
                        == entity by {
                    assert(first_counted(before, entity, period) < before.len());
                }
            }
        }
        i += 1;
    }
    proof {
        assert(log.take(i as int) =~= log);
    }
    Ok(groups)
}

/// The report of `store` over `period`: for each application with a positive total of
/// seconds in intervals wholly inside the period, one line with that
/// total; lines with more seconds first, and lines with equal seconds in
/// the order in which their applications first appear. Without a period
/// every interval counts. Fails exactly when a total exceeds 32 bits.
pub fn aggregate(store: &Db, period: Option<(u32, u32)>) -> (r: Result<Vec<WindowStat>, StoreError>)
    requires
        store.wf(),
    ensures
        r is Err <==> overflows(store@, period),
        match r {
            Ok(stats) => is_report(store@, period, stats_view(stats@)),
            Err(e) => e == StoreError::TotalOverflow,
        },
{
    let groups = match group_totals(store.rows(), period) {
        Ok(groups) => groups,
        Err(e) => {
            return Err(e);
        },
    };
    let ghost log = store@;
    let ghost totals = stats_view(groups@);
    proof {
        assert forall|k: int| 0 <= k < totals.len() implies (#[trigger] totals[k]).seconds
            <= u32::MAX by {
            assert(totals[k] == groups@[k]@);
        }
        lemma_grouped_fits(log, period, totals);
    }
    let mut stats: Vec<WindowStat> = Vec::new();
    let mut g: usize = 0;
    while g < groups.len()
        invariant
            g <= groups@.len(),
            totals == stats_view(groups@),
            grouped(log, period, totals),
            ranked_prefix(log, period, totals, g as int, stats_view(stats@)),
        decreases groups@.len() - g,
    {
        let ghost before = stats_view(stats@);
        let seconds = groups[g].seconds;
        proof {
            assert(totals[g as int] == groups@[g as int]@);
        }
        if seconds > 0 {
            let mut at: usize = 0;
            while at < stats.len() && stats[at].seconds >= seconds
                invariant
                    at <= stats@.len(),
                    forall|x: int| 0 <= x < at ==> (#[trigger] stats@[x]).seconds >= seconds,
                decreases stats@.len() - at,
            {
                at += 1;
            }
            let entry = WindowStat { window_name: groups[g].window_name.clone(), seconds };
            proof {
                assert forall|x: int| 0 <= x < at implies (#[trigger] before[x]).seconds
                    >= totals[g as int].seconds by {
                    assert(before[x] == stats@[x]@);
                }
                if at < stats@.len() {
                    assert(before[at as int] == stats@[at as int]@);
                }
                lemma_rank_next(log, period, totals, g as int, before, at as int);
            }
            stats.insert(at, entry);
            proof {
                assert(stats_view(stats@) =~= before.insert(at as int, totals[g as int]));
            }
        } else {
            proof {
                lemma_rank_skip(log, period, totals, g as int, before);
            }
        }
        g += 1;
    }
    proof {
        lemma_ranked_is_report(log, period, totals, stats_view(stats@));
    }
    Ok(stats)
}

} // verus!
