//! Penalties that weigh nothing unless the configuration gives them a
//! weight: time over the daily limit, exercises that come more than twice,
//! and days of unequal length.

use vstd::prelude::*;
use crate::catalog::{find_exercise, lookup};
use crate::structs::{ConfigSpec, EntrySpec, Exercise, ExerciseSpec, RoutineEntry, ScheduleSpec,
    MAX_DAYS, TIME_PER_SET};
use crate::volume::{days_within, lemma_sets_fit, sets_fit};

verus! {

/// The number of times that an exercise may come without penalty.
pub const FREE_OCCURRENCES: u128 = 2;

/// The minutes that an entry takes in the eyes of the cost: two for each set
/// of an exercise that the catalog holds.
pub open spec fn entry_time(catalog: Seq<ExerciseSpec>, entry: EntrySpec) -> int {
    match lookup(catalog, entry.exercise) {
        Some(_) => TIME_PER_SET * entry.sets,
        None => 0,
    }
}

/// The minutes that a day takes.
pub open spec fn day_time(catalog: Seq<ExerciseSpec>, day: Seq<EntrySpec>) -> int
    decreases day.len(),
{
    if day.len() == 0 {
        0
    } else {
        day_time(catalog, day.drop_last()) + entry_time(catalog, day.last())
    }
}

/// The minutes by which the days go over `limit`, added up.
pub open spec fn time_overage(routine: ScheduleSpec, catalog: Seq<ExerciseSpec>, limit: int) -> int
    decreases routine.len(),
{
    if routine.len() == 0 {
        0
    } else {
        time_overage(routine.drop_last(), catalog, limit) + if day_time(catalog, routine.last())
            > limit {
            day_time(catalog, routine.last()) - limit
        } else {
            0
        }
    }
}

/// The minutes that all days take together.
pub open spec fn total_time(routine: ScheduleSpec, catalog: Seq<ExerciseSpec>) -> int
    decreases routine.len(),
{
    if routine.len() == 0 {
        0
    } else {
        total_time(routine.drop_last(), catalog) + day_time(catalog, routine.last())
    }
}

/// The squares of `scale` times a day's minutes less `total`, added up over
/// `days`.
pub open spec fn spread_over(days: ScheduleSpec, catalog: Seq<ExerciseSpec>, scale: int, total: int) -> int
    decreases days.len(),
{
    if days.len() == 0 {
        0
    } else {
        let off = scale * day_time(catalog, days.last()) - total;
        spread_over(days.drop_last(), catalog, scale, total) + off * off
    }
}

/// How unequal the days are: with `n` days, `n * n` times the sum of the
/// squares of what each day's minutes differ from the mean.
pub open spec fn time_spread(routine: ScheduleSpec, catalog: Seq<ExerciseSpec>) -> int {
    spread_over(routine, catalog, routine.len() as int, total_time(routine, catalog))
}

/// The number of entries of the day that name `name`.
pub open spec fn day_occurrences(day: Seq<EntrySpec>, name: Seq<char>) -> int
    decreases day.len(),
{
    if day.len() == 0 {
        0
    } else {
        day_occurrences(day.drop_last(), name) + if day.last().exercise == name {
            1int
        } else {
            0int
        }
    }
}

/// The number of entries of the schedule that name `name`.
pub open spec fn occurrences(routine: ScheduleSpec, name: Seq<char>) -> int
    decreases routine.len(),
{
    if routine.len() == 0 {
        0
    } else {
        occurrences(routine.drop_last(), name) + day_occurrences(routine.last(), name)
    }
}

/// The number of entries that name the exercise of entry `(day, index)` and
/// stand before it.
pub open spec fn occurrences_before(routine: ScheduleSpec, day: int, index: int) -> int {
    occurrences(routine.take(day), routine[day][index].exercise) + day_occurrences(
        routine[day].take(index),
        routine[day][index].exercise,
    )
}

/// The number of entries among the first `n` of day `day` that name an
/// exercise for at least the third time.
pub open spec fn day_repeats(routine: ScheduleSpec, day: int, n: int) -> int
    decreases n,
{
    if n <= 0 {
        0
    } else {
        day_repeats(routine, day, n - 1) + if occurrences_before(routine, day, n - 1)
            >= FREE_OCCURRENCES {
            1int
        } else {
            0int
        }
    }
}

/// The number of entries in the first `n` days that name an exercise for at
/// least the third time.
pub open spec fn repeats_upto(routine: ScheduleSpec, n: int) -> int
    decreases n,
{
    if n <= 0 {
        0
    } else {
        repeats_upto(routine, n - 1) + day_repeats(routine, n - 1, routine[n - 1].len() as int)
    }
}

/// The number of entries that name an exercise for at least the third time,
/// counted through the schedule in its order.
pub open spec fn frequency_overage(routine: ScheduleSpec) -> int {
    repeats_upto(routine, routine.len() as int)
}

/// What the penalties of this file add to a cost, in sixteenths: each weighs
/// what the configuration says.
pub open spec fn dormant_penalty(routine: ScheduleSpec, catalog: Seq<ExerciseSpec>, config: ConfigSpec) -> int {
    config.time_weight * time_overage(routine, catalog, config.max_time_per_day as int)
        + config.frequency_weight * frequency_overage(routine) + config.variance_weight
        * time_spread(routine, catalog)
}

/// The most minutes, in size, that a day of at most 255 entries takes.
pub open spec fn day_time_cap() -> int {
    255int * 0x1_0000_0000int
}

/// A day takes at most `2^32` minutes, in size, for each entry.
pub proof fn lemma_day_time_bound(catalog: Seq<ExerciseSpec>, day: Seq<EntrySpec>)
    requires
        forall|i: int| 0 <= i < day.len() ==> i32::MIN <= (#[trigger] day[i]).sets <= i32::MAX,
    ensures
        -(day.len() * 0x1_0000_0000) <= day_time(catalog, day) <= day.len() * 0x1_0000_0000,
    decreases day.len(),
{
    if day.len() > 0 {
        let rest = day.drop_last();
        assert forall|i: int| 0 <= i < rest.len() implies i32::MIN <= (#[trigger] rest[i]).sets
            <= i32::MAX by {
            assert(rest[i] == day[i]);
        }
        lemma_day_time_bound(catalog, rest);
    }
}

/// In a schedule whose days have at most 255 entries, no day takes more than
/// `day_time_cap()` minutes, in size.
pub proof fn lemma_day_times_capped(routine: ScheduleSpec, catalog: Seq<ExerciseSpec>, d: int)
    requires
        sets_fit(routine),
        days_within(routine, 255),
        0 <= d < routine.len(),
    ensures
        -day_time_cap() <= day_time(catalog, routine[d]) <= day_time_cap(),
{
    let day = routine[d];
    assert forall|i: int| 0 <= i < day.len() implies i32::MIN <= (#[trigger] day[i]).sets
        <= i32::MAX by {
        assert(day[i] == routine[d][i]);
    }
    lemma_day_time_bound(catalog, day);
}

/// The minutes over the limit are none or more, and at most
/// `day_time_cap()` for each day whose entries are at most 255.
pub proof fn lemma_time_overage_bound(routine: ScheduleSpec, catalog: Seq<ExerciseSpec>, limit: int)
    requires
        sets_fit(routine),
        days_within(routine, 255),
        limit >= 0,
    ensures
        0 <= time_overage(routine, catalog, limit) <= routine.len() * day_time_cap(),
    decreases routine.len(),
{
    if routine.len() > 0 {
        let rest = routine.drop_last();
        assert forall|d: int, i: int| 0 <= d < rest.len() && 0 <= i < rest[d].len() implies i32::MIN
            <= (#[trigger] rest[d][i]).sets <= i32::MAX by {
            assert(rest[d][i] == routine[d][i]);
        }
        assert forall|d: int| 0 <= d < rest.len() implies (#[trigger] rest[d]).len() <= 255 by {
            assert(rest[d] == routine[d]);
        }
        lemma_time_overage_bound(rest, catalog, limit);
        lemma_day_times_capped(routine, catalog, routine.len() - 1);
        let n = routine.len() as int;
        let cap = day_time_cap();
        assert(n * cap == (n - 1) * cap + cap) by (nonlinear_arith);
    }
}

/// All days together take at most `day_time_cap()` minutes, in size, for
/// each day whose entries are at most 255.
pub proof fn lemma_total_time_bound(routine: ScheduleSpec, catalog: Seq<ExerciseSpec>)
    requires
        sets_fit(routine),
        days_within(routine, 255),
    ensures
        -(routine.len() * day_time_cap()) <= total_time(routine, catalog) <= routine.len()
            * day_time_cap(),
    decreases routine.len(),
{
    if routine.len() > 0 {
        let rest = routine.drop_last();
        assert forall|d: int, i: int| 0 <= d < rest.len() && 0 <= i < rest[d].len() implies i32::MIN
            <= (#[trigger] rest[d][i]).sets <= i32::MAX by {
            assert(rest[d][i] == routine[d][i]);
        }
        assert forall|d: int| 0 <= d < rest.len() implies (#[trigger] rest[d]).len() <= 255 by {
            assert(rest[d] == routine[d]);
        }
        lemma_total_time_bound(rest, catalog);
        lemma_day_times_capped(routine, catalog, routine.len() - 1);
        let n = routine.len() as int;
        let cap = day_time_cap();
        assert(n * cap == (n - 1) * cap + cap) by (nonlinear_arith);
    }
}

/// The most that `scale` times a day's minutes can differ from the total, in
/// size, in a schedule of at most 512 days of at most 255 entries.
pub open spec fn off_cap() -> int {
    2 * (512 * day_time_cap())
}

/// The caps as numbers.
pub proof fn lemma_caps()
    ensures
        day_time_cap() == 0xff_0000_0000,
        off_cap() == 0x3fc_00_0000_0000,
        off_cap() * off_cap() <= 0x10_0000_0000_0000_0000_0000_0000,
{
    assert(off_cap() * off_cap() <= 0x10_0000_0000_0000_0000_0000_0000) by (nonlinear_arith)
        requires
            off_cap() == 0x3fc_00_0000_0000,
    ;
}

/// The spread is none or more, and at most the square of `off_cap()` for
/// each day.
pub proof fn lemma_spread_bound(days: ScheduleSpec, catalog: Seq<ExerciseSpec>, scale: int, total: int)
    requires
        sets_fit(days),
        days_within(days, 255),
        0 <= scale <= 512,
        -(512 * day_time_cap()) <= total <= 512 * day_time_cap(),
    ensures
        0 <= spread_over(days, catalog, scale, total) <= days.len() * (off_cap() * off_cap()),
    decreases days.len(),
{
    if days.len() > 0 {
        let rest = days.drop_last();
        assert forall|d: int, i: int| 0 <= d < rest.len() && 0 <= i < rest[d].len() implies i32::MIN
            <= (#[trigger] rest[d][i]).sets <= i32::MAX by {
            assert(rest[d][i] == days[d][i]);
        }
        assert forall|d: int| 0 <= d < rest.len() implies (#[trigger] rest[d]).len() <= 255 by {
            assert(rest[d] == days[d]);
        }
        lemma_spread_bound(rest, catalog, scale, total);
        lemma_day_times_capped(days, catalog, days.len() - 1);
        let t = day_time(catalog, days.last());
        lemma_off_bound(scale, t, total);
        let n = days.len() as int;
        let sq = off_cap() * off_cap();
        assert(n * sq == (n - 1) * sq + sq) by (nonlinear_arith);
    }
}

/// The square of `scale * t - total` is at most that of `off_cap()`.
pub proof fn lemma_off_bound(scale: int, t: int, total: int)
    requires
        0 <= scale <= 512,
        -day_time_cap() <= t <= day_time_cap(),
        -(512 * day_time_cap()) <= total <= 512 * day_time_cap(),
    ensures
        -off_cap() <= scale * t - total <= off_cap(),
        0 <= (scale * t - total) * (scale * t - total) <= off_cap() * off_cap(),
{
    let cap = day_time_cap();
    assert(-(512 * cap) <= scale * t <= 512 * cap) by (nonlinear_arith)
        requires
            0 <= scale <= 512,
            -cap <= t <= cap,
            cap >= 0,
    ;
    let off = scale * t - total;
    let most = off_cap();
    assert(0 <= off * off <= most * most) by (nonlinear_arith)
        requires
            -most <= off <= most,
    ;
}

/// A day has no more repeats than entries counted.
pub proof fn lemma_day_repeats_bound(routine: ScheduleSpec, day: int, n: int)
    requires
        0 <= n,
    ensures
        0 <= day_repeats(routine, day, n) <= n,
    decreases n,
{
    if n > 0 {
        lemma_day_repeats_bound(routine, day, n - 1);
    }
}

/// The first `n` days have at most 255 repeats a day where no day has more
/// than 255 entries.
pub proof fn lemma_repeats_bound(routine: ScheduleSpec, n: int)
    requires
        days_within(routine, 255),
        0 <= n <= routine.len(),
    ensures
        0 <= repeats_upto(routine, n) <= n * 255,
    decreases n,
{
    if n > 0 {
        lemma_repeats_bound(routine, n - 1);
        lemma_day_repeats_bound(routine, n - 1, routine[n - 1].len() as int);
    }
}

/// The minutes that a day takes in the eyes of the cost.
pub fn day_time_of(day: &Vec<RoutineEntry>, exercises: &Vec<Exercise>) -> (minutes: i128)
    ensures
        minutes == day_time(exercises.deep_view(), day.deep_view()),
        -(day.len() * 0x1_0000_0000) <= minutes <= day.len() * 0x1_0000_0000,
{
    let ghost v = day.deep_view();
    let ghost c = exercises.deep_view();
    let mut minutes: i128 = 0;
    let mut i: usize = 0;
    while i < day.len()
        invariant
            i <= day.len(),
            v == day.deep_view(),
            c == exercises.deep_view(),
            minutes == day_time(c, v.take(i as int)),
            -(i * 0x1_0000_0000) <= minutes <= i * 0x1_0000_0000,
        decreases day.len() - i,
    {
        assert(v.take(i as int + 1).drop_last() =~= v.take(i as int));
        assert(v.take(i as int + 1).last() == day[i as int]@);
        match find_exercise(exercises, &day[i].exercise) {
            Some(_) => {
                minutes = minutes + TIME_PER_SET as i128 * (day[i].sets as i128);
            },
            None => {},
        }
        i += 1;
    }
    assert(v.take(day.len() as int) =~= v);
    minutes
}

/// The minutes by which the days go over `limit`, added up.
pub fn time_overage_of(routine: &Vec<Vec<RoutineEntry>>, exercises: &Vec<Exercise>, limit: u32) -> (over:
    u128)
    requires
        routine.len() <= MAX_DAYS,
    ensures
        over == time_overage(routine.deep_view(), exercises.deep_view(), limit as int),
{
    let ghost r = routine.deep_view();
    let ghost c = exercises.deep_view();
    let mut over: u128 = 0;
    let mut d: usize = 0;
    while d < routine.len()
        invariant
            d <= routine.len() <= MAX_DAYS,
            r == routine.deep_view(),
            c == exercises.deep_view(),
            over == time_overage(r.take(d as int), c, limit as int),
            over <= d * 0x1_0000_0000_0000_0000_0000_0000,
        decreases routine.len() - d,
    {
        assert(r[d as int] == routine[d as int].deep_view());
        assert(r.take(d as int + 1).drop_last() =~= r.take(d as int));
        assert(r.take(d as int + 1).last() == r[d as int]);
        let minutes = day_time_of(&routine[d], exercises);
        assert(minutes <= 0x1_0000_0000_0000_0000_0000_0000) by (nonlinear_arith)
            requires
                minutes <= routine[d as int].len() * 0x1_0000_0000,
                routine[d as int].len() <= 0xffff_ffff_ffff_ffff,
        ;
        if minutes > limit as i128 {
            over = over + (minutes - limit as i128) as u128;
        }
        d += 1;
    }
    assert(r.take(routine.len() as int) =~= r);
    over
}

/// The minutes that all days take together.
pub fn total_time_of(routine: &Vec<Vec<RoutineEntry>>, exercises: &Vec<Exercise>) -> (minutes: i128)
    requires
        routine.len() <= MAX_DAYS,
    ensures
        minutes == total_time(routine.deep_view(), exercises.deep_view()),
{
    let ghost r = routine.deep_view();
    let ghost c = exercises.deep_view();
    let mut minutes: i128 = 0;
    let mut d: usize = 0;
    while d < routine.len()
        invariant
            d <= routine.len() <= MAX_DAYS,
            r == routine.deep_view(),
            c == exercises.deep_view(),
            minutes == total_time(r.take(d as int), c),
            -(d * 0x1_0000_0000_0000_0000_0000_0000) <= minutes <= d
                * 0x1_0000_0000_0000_0000_0000_0000,
        decreases routine.len() - d,
    {
        assert(r[d as int] == routine[d as int].deep_view());
        assert(r.take(d as int + 1).drop_last() =~= r.take(d as int));
        assert(r.take(d as int + 1).last() == r[d as int]);
        let today = day_time_of(&routine[d], exercises);
        assert(-0x1_0000_0000_0000_0000_0000_0000 <= today <= 0x1_0000_0000_0000_0000_0000_0000)
            by (nonlinear_arith)
            requires
                -(routine[d as int].len() * 0x1_0000_0000) <= today <= routine[d as int].len()
                    * 0x1_0000_0000,
                routine[d as int].len() <= 0xffff_ffff_ffff_ffff,
        ;
        minutes = minutes + today;
        d += 1;
    }
    assert(r.take(routine.len() as int) =~= r);
    minutes
}

/// How unequal the days are, for a schedule whose days have at most 255
/// entries.
pub fn time_spread_of(routine: &Vec<Vec<RoutineEntry>>, exercises: &Vec<Exercise>) -> (spread: u128)
    requires
        routine.len() <= MAX_DAYS,
        days_within(routine.deep_view(), 255),
    ensures
        spread == time_spread(routine.deep_view(), exercises.deep_view()),
        spread <= 512 * (off_cap() * off_cap()),
{
    let ghost r = routine.deep_view();
    let ghost c = exercises.deep_view();
    let total = total_time_of(routine, exercises);
    let scale = routine.len() as i128;
    proof {
        lemma_sets_fit(routine);
        lemma_total_time_bound(r, c);
        let n = r.len() as int;
        let cap = day_time_cap();
        assert(n * cap <= 512 * cap) by (nonlinear_arith)
            requires
                0 <= n <= 512,
                cap >= 0,
        ;
    }
    let mut spread: u128 = 0;
    let mut d: usize = 0;
    while d < routine.len()
        invariant
            d <= routine.len() <= MAX_DAYS,
            r == routine.deep_view(),
            c == exercises.deep_view(),
            sets_fit(r),
            days_within(r, 255),
            scale == routine.len(),
            total == total_time(r, c),
            -(512 * day_time_cap()) <= total <= 512 * day_time_cap(),
            spread == spread_over(r.take(d as int), c, scale as int, total as int),
            spread <= d * (off_cap() * off_cap()),
        decreases routine.len() - d,
    {
        assert(r[d as int] == routine[d as int].deep_view());
        assert(r.take(d as int + 1).drop_last() =~= r.take(d as int));
        assert(r.take(d as int + 1).last() == r[d as int]);
        let today = day_time_of(&routine[d], exercises);
        proof {
            lemma_caps();
            lemma_day_times_capped(r, c, d as int);
            lemma_off_bound(scale as int, today as int, total as int);
            let sq = off_cap() * off_cap();
            assert((d + 1) * sq == d * sq + sq) by (nonlinear_arith);
            assert(d * sq <= 511 * sq) by (nonlinear_arith)
                requires
                    d <= 511,
                    sq >= 0,
            ;
            assert(-(512 * day_time_cap()) <= scale * today <= 512 * day_time_cap())
                by (nonlinear_arith)
                requires
                    0 <= scale <= 512,
                    -day_time_cap() <= today <= day_time_cap(),
            ;
        }
        let off = scale * today - total;
        let square = off * off;
        spread = spread + square as u128;
        d += 1;
    }
    assert(r.take(routine.len() as int) =~= r);
    proof {
        let sq = off_cap() * off_cap();
        assert(d * sq <= 512 * sq) by (nonlinear_arith)
            requires
                d <= 512,
                sq >= 0,
        ;
    }
    spread
}

/// The number of entries among the first `upto` of the day that name `name`.
pub fn count_in_day(day: &Vec<RoutineEntry>, upto: usize, name: &String) -> (count: usize)
    requires
        upto <= day.len(),
    ensures
        count == day_occurrences(day.deep_view().take(upto as int), name@),
        count <= upto,
{
    let ghost v = day.deep_view();
    let mut count: usize = 0;
    let mut i: usize = 0;
    while i < upto
        invariant
            i <= upto <= day.len(),
            v == day.deep_view(),
            count == day_occurrences(v.take(i as int), name@),
            count <= i,
        decreases upto - i,
    {
        assert(v.take(i as int + 1).drop_last() =~= v.take(i as int));
        assert(v.take(i as int + 1).last() == day[i as int]@);
        if day[i].exercise == *name {
            count += 1;
        }
        i += 1;
    }
    count
}

/// The number of entries that name the exercise of entry `(day, index)` and
/// stand before it.
pub fn count_before(routine: &Vec<Vec<RoutineEntry>>, day: usize, index: usize) -> (count: u128)
    requires
        day < routine.len() <= MAX_DAYS,
        index < routine[day as int].len(),
    ensures
        count == occurrences_before(routine.deep_view(), day as int, index as int),
{
    let ghost r = routine.deep_view();
    let name = &routine[day][index].exercise;
    assert(r[day as int] == routine[day as int].deep_view());
    assert(r[day as int][index as int].exercise == name@);
    let mut count: u128 = 0;
    let mut d: usize = 0;
    while d < day
        invariant
            d <= day < routine.len() <= MAX_DAYS,
            r == routine.deep_view(),
            count == occurrences(r.take(d as int), name@),
            count <= d * 0xffff_ffff_ffff_ffff,
        decreases day - d,
    {
        assert(r[d as int] == routine[d as int].deep_view());
        assert(r.take(d as int + 1).drop_last() =~= r.take(d as int));
        assert(r.take(d as int + 1).last() == r[d as int]);
        let here = count_in_day(&routine[d], routine[d].len(), name);
        assert(r[d as int].take(routine[d as int].len() as int) =~= r[d as int]);
        count = count + here as u128;
        d += 1;
    }
    assert(r.take(day as int).take(day as int) =~= r.take(day as int));
    count + count_in_day(&routine[day], index, name) as u128
}

/// The number of entries that name an exercise for at least the third time.
pub fn frequency_overage_of(routine: &Vec<Vec<RoutineEntry>>) -> (over: u128)
    requires
        routine.len() <= MAX_DAYS,
    ensures
        over == frequency_overage(routine.deep_view()),
{
    let ghost r = routine.deep_view();
    let mut over: u128 = 0;
    let mut d: usize = 0;
    while d < routine.len()
        invariant
            d <= routine.len() <= MAX_DAYS,
            r == routine.deep_view(),
            over == repeats_upto(r, d as int),
            over <= d * 0xffff_ffff_ffff_ffff,
        decreases routine.len() - d,
    {
        assert(r[d as int] == routine[d as int].deep_view());
        let ghost start = over;
        let mut i: usize = 0;
        while i < routine[d].len()
            invariant
                d < routine.len() <= MAX_DAYS,
                r == routine.deep_view(),
                r[d as int] == routine[d as int].deep_view(),
                i <= routine[d as int].len(),
                start == repeats_upto(r, d as int),
                start <= d * 0xffff_ffff_ffff_ffff,
                over == start + day_repeats(r, d as int, i as int),
                over <= start + i,
            decreases routine[d as int].len() - i,
        {
            if count_before(routine, d, i) >= FREE_OCCURRENCES {
                over = over + 1;
            }
            i += 1;
        }
        d += 1;
    }
    over
}

} // verus!
